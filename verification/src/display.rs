//! The monitor model shared by all platforms, and the choice of the
//! monitors a wallpaper goes on.

use vstd::prelude::*;
use crate::text::{append_str, decimal, push_decimal, push_signed_decimal, signed_decimal, string_of};

verus! {

/// Represents a physical or virtual monitor
#[derive(Debug, Clone, Copy)]
pub struct Display {
    /// 0-based display index
    pub index: u32,
    /// Left position in virtual screen coordinates
    pub x: i32,
    /// Top position in virtual screen coordinates
    pub y: i32,
    /// Display width in pixels
    pub width: u32,
    /// Display height in pixels
    pub height: u32,
    /// Work area left (excludes taskbar)
    pub work_x: i32,
    /// Work area top
    pub work_y: i32,
    /// Work area width
    pub work_width: u32,
    /// Work area height
    pub work_height: u32,
    /// Whether this is the primary display
    pub is_primary: bool,
}

/// The one-line description of a display.
pub open spec fn display_text(d: Display) -> Seq<char> {
    "Display "@ + decimal(d.index as nat) + ": "@ + decimal(d.width as nat) + "x"@ + decimal(
        d.height as nat,
    ) + " at ("@ + signed_decimal(d.x as int) + ", "@ + signed_decimal(d.y as int) + ")"@ + (
    if d.is_primary {
        " [Primary]"@
    } else {
        Seq::empty()
    })
}

impl Display {
    /// Create a new Display instance
    #[allow(clippy::too_many_arguments)]
    pub fn new(
        index: u32,
        x: i32,
        y: i32,
        width: u32,
        height: u32,
        work_x: i32,
        work_y: i32,
        work_width: u32,
        work_height: u32,
        is_primary: bool,
    ) -> (d: Display)
        ensures
            d == (Display {
                index,
                x,
                y,
                width,
                height,
                work_x,
                work_y,
                work_width,
                work_height,
                is_primary,
            }),
    {
        Display { index, x, y, width, height, work_x, work_y, work_width, work_height, is_primary }
    }

    /// Get the full display rectangle (x, y, width, height)
    pub fn full_rect(&self) -> (r: (i32, i32, u32, u32))
        ensures
            r == (self.x, self.y, self.width, self.height),
    {
        (self.x, self.y, self.width, self.height)
    }

    /// Get the work area rectangle (x, y, width, height)
    pub fn work_rect(&self) -> (r: (i32, i32, u32, u32))
        ensures
            r == (self.work_x, self.work_y, self.work_width, self.work_height),
    {
        (self.work_x, self.work_y, self.work_width, self.work_height)
    }

    /// The one-line description: `Display <i>: <w>x<h> at (<x>, <y>)`,
    /// followed by ` [Primary]` for the primary display.
    pub fn to_string(&self) -> (s: String)
        ensures
            s@ == display_text(*self),
    {
        let mut v: Vec<char> = Vec::new();
        append_str(&mut v, "Display ");
        push_decimal(&mut v, self.index as u64);
        append_str(&mut v, ": ");
        push_decimal(&mut v, self.width as u64);
        append_str(&mut v, "x");
        push_decimal(&mut v, self.height as u64);
        append_str(&mut v, " at (");
        push_signed_decimal(&mut v, self.x as i64);
        append_str(&mut v, ", ");
        push_signed_decimal(&mut v, self.y as i64);
        append_str(&mut v, ")");
        if self.is_primary {
            append_str(&mut v, " [Primary]");
        }
        assert(v@ =~= display_text(*self));
        string_of(v.as_slice())
    }
}

/// Position `i` holds the first display in `ds` whose index is `index`.
pub open spec fn is_first_with_index(ds: Seq<Display>, i: int, index: u32) -> bool {
    0 <= i < ds.len() && ds[i].index == index && forall|j: int|
        0 <= j < i ==> (#[trigger] ds[j]).index != index
}

/// Position `i` holds the first display in `ds` that is marked primary.
pub open spec fn is_first_primary(ds: Seq<Display>, i: int) -> bool {
    0 <= i < ds.len() && ds[i].is_primary && forall|j: int| 0 <= j < i ==> !(#[trigger] ds[j]).is_primary
}

/// Find a display by index from a list of displays: the first one whose
/// index is `index`.
pub fn find_display_by_index(displays: &[Display], index: u32) -> (r: Option<&Display>)
    ensures
        match r {
            Some(d) => exists|i: int|
                is_first_with_index(displays@, i, index) && *d == displays@[i],
            None => forall|i: int| 0 <= i < displays@.len() ==> (#[trigger] displays@[i]).index != index,
        },
{
    let mut i: usize = 0;
    while i < displays.len()
        invariant
            i <= displays.len(),
            forall|j: int| 0 <= j < i ==> (#[trigger] displays@[j]).index != index,
        decreases displays.len() - i,
    {
        if displays[i].index == index {
            assert(is_first_with_index(displays@, i as int, index));
            return Some(&displays[i]);
        }
        i = i + 1;
    }
    None
}

/// Get the primary display from a list of displays: the first one marked
/// primary.
pub fn find_primary_display(displays: &[Display]) -> (r: Option<&Display>)
    ensures
        match r {
            Some(d) => exists|i: int|
                is_first_primary(displays@, i) && *d == displays@[i],
            None => forall|i: int| 0 <= i < displays@.len() ==> !(#[trigger] displays@[i]).is_primary,
        },
{
    let mut i: usize = 0;
    while i < displays.len()
        invariant
            i <= displays.len(),
            forall|j: int| 0 <= j < i ==> !(#[trigger] displays@[j]).is_primary,
        decreases displays.len() - i,
    {
        if displays[i].is_primary {
            assert(is_first_primary(displays@, i as int));
            return Some(&displays[i]);
        }
        i = i + 1;
    }
    None
}

/// Makes sure one display is primary: when none of them is marked primary,
/// the first one becomes primary.  Nothing else changes.
pub fn ensure_primary(displays: &mut Vec<Display>)
    ensures
        final(displays)@.len() == old(displays)@.len(),
        (exists|i: int| 0 <= i < old(displays)@.len() && (#[trigger] old(displays)@[i]).is_primary)
            ==> final(displays)@ == old(displays)@,
        (old(displays)@.len() > 0 && forall|i: int|
            0 <= i < old(displays)@.len() ==> !(#[trigger] old(displays)@[i]).is_primary)
            ==> final(displays)@ == old(displays)@.update(
            0,
            Display { is_primary: true, ..old(displays)@[0] },
        ),
        old(displays)@.len() == 0 ==> final(displays)@ == old(displays)@,
        final(displays)@.len() > 0 ==> exists|i: int|
            0 <= i < final(displays)@.len() && (#[trigger] final(displays)@[i]).is_primary,
{
    if displays.len() == 0 {
        return;
    }
    let found = find_primary_display(displays.as_slice()).is_some();
    if !found {
        let mut first = displays[0];
        first.is_primary = true;
        displays.set(0, first);
        assert(displays@[0].is_primary);
    }
}

// ---------------------------------------------------------------------------
// Choosing the displays to cover
// ---------------------------------------------------------------------------

/// Why no display could be chosen.
#[derive(Debug, Clone, PartialEq, Eq)]
pub enum TargetError {
    /// The requested display does not exist; the indices that do.
    DisplayNotFound { requested: u32, available: Vec<u32> },
    /// No display was found at all.
    NoDisplays,
}

/// The indices of the displays, in order.
pub open spec fn indices_of(ds: Seq<Display>) -> Seq<u32> {
    ds.map_values(|d: Display| d.index)
}

/// The displays a wallpaper goes on: with a requested index, the first
/// display with that index, or an error naming the available indices when
/// there is none; without one, all displays, or an error when there are
/// none.
pub open spec fn select_targets_spec(ds: Seq<Display>, requested: Option<u32>) -> Result<
    Seq<Display>,
    TargetErrorView,
> {
    match requested {
        Some(index) => if exists|i: int| 0 <= i < ds.len() && (#[trigger] ds[i]).index == index {
            let i = choose|i: int| #[trigger] is_first_with_index(ds, i, index);
            Ok(seq![ds[i]])
        } else {
            Err(TargetErrorView::DisplayNotFound { requested: index, available: indices_of(ds) })
        },
        None => if ds.len() == 0 {
            Err(TargetErrorView::NoDisplays)
        } else {
            Ok(ds)
        },
    }
}

/// The value of a [`TargetError`].
pub enum TargetErrorView {
    DisplayNotFound { requested: u32, available: Seq<u32> },
    NoDisplays,
}

impl View for TargetError {
    type V = TargetErrorView;

    open spec fn view(&self) -> TargetErrorView {
        match self {
            TargetError::DisplayNotFound { requested, available } => TargetErrorView::DisplayNotFound {
                requested: *requested,
                available: available@,
            },
            TargetError::NoDisplays => TargetErrorView::NoDisplays,
        }
    }
}

proof fn lemma_first_with_index_unique(ds: Seq<Display>, i: int, k: int, index: u32)
    requires
        is_first_with_index(ds, i, index),
        is_first_with_index(ds, k, index),
    ensures
        i == k,
{
    if i < k {
        assert(ds[i].index != index);
    }
    if k < i {
        assert(ds[k].index != index);
    }
}

/// Chooses the displays a wallpaper goes on (see [`select_targets_spec`]).
pub fn select_target_displays(displays: &[Display], requested: Option<u32>) -> (r: Result<
    Vec<Display>,
    TargetError,
>)
    ensures
        match r {
            Ok(v) => select_targets_spec(displays@, requested) == Ok::<
                Seq<Display>,
                TargetErrorView,
            >(v@),
            Err(e) => select_targets_spec(displays@, requested) == Err::<
                Seq<Display>,
                TargetErrorView,
            >(e@),
        },
{
    match requested {
        Some(index) => {
            match find_display_by_index(displays, index) {
                Some(d) => {
                    let ghost w = choose|i: int|
                        is_first_with_index(displays@, i, index) && *d == displays@[i];
                    proof {
                        let c = choose|i: int| #[trigger] is_first_with_index(displays@, i, index);
                        lemma_first_with_index_unique(displays@, w, c, index);
                        assert(displays@[w].index == index);
                    }
                    let mut v: Vec<Display> = Vec::new();
                    v.push(*d);
                    assert(v@ =~= seq![*d]);
                    Ok(v)
                },
                None => {
                    let mut available: Vec<u32> = Vec::new();
                    let mut i: usize = 0;
                    while i < displays.len()
                        invariant
                            i <= displays.len(),
                            available@ =~= indices_of(displays@.take(i as int)),
                        decreases displays.len() - i,
                    {
                        available.push(displays[i].index);
                        assert(displays@.take(i + 1) =~= displays@.take(i as int).push(displays@[i as int]));
                        i = i + 1;
                    }
                    assert(displays@.take(displays.len() as int) =~= displays@);
                    Err(TargetError::DisplayNotFound { requested: index, available })
                },
            }
        },
        None => {
            if displays.len() == 0 {
                Err(TargetError::NoDisplays)
            } else {
                let mut v: Vec<Display> = Vec::new();
                let mut i: usize = 0;
                while i < displays.len()
                    invariant
                        i <= displays.len(),
                        v@ =~= displays@.take(i as int),
                    decreases displays.len() - i,
                {
                    v.push(displays[i]);
                    assert(displays@.take(i + 1) =~= displays@.take(i as int).push(displays@[i as int]));
                    i = i + 1;
                }
                assert(displays@.take(displays.len() as int) =~= displays@);
                Ok(v)
            }
        },
    }
}

/// The indices joined by `", "`.
pub open spec fn index_list_text(ix: Seq<u32>) -> Seq<char>
    decreases ix.len(),
{
    if ix.len() == 0 {
        Seq::empty()
    } else if ix.len() == 1 {
        decimal(ix[0] as nat)
    } else {
        index_list_text(ix.drop_last()) + ", "@ + decimal(ix.last() as nat)
    }
}

/// Writes indices joined by `", "`.
pub fn index_list(ix: &[u32]) -> (s: String)
    ensures
        s@ == index_list_text(ix@),
{
    let mut v: Vec<char> = Vec::new();
    let mut i: usize = 0;
    while i < ix.len()
        invariant
            i <= ix.len(),
            v@ == index_list_text(ix@.take(i as int)),
        decreases ix.len() - i,
    {
        let ghost before = v@;
        assert(ix@.take(i + 1).drop_last() =~= ix@.take(i as int));
        if i > 0 {
            append_str(&mut v, ", ");
        }
        push_decimal(&mut v, ix[i] as u64);
        proof {
            if i == 0 {
                assert(v@ =~= decimal(ix@[0] as nat));
            } else {
                assert(v@ =~= before + ", "@ + decimal(ix@[i as int] as nat));
            }
        }
        i = i + 1;
    }
    assert(ix@.take(ix.len() as int) =~= ix@);
    string_of(v.as_slice())
}

/// The message reported when no display could be chosen.
pub open spec fn target_error_text(e: TargetErrorView) -> Seq<char> {
    match e {
        TargetErrorView::DisplayNotFound { requested, available } => "Display "@ + decimal(
            requested as nat,
        ) + " does not exist (available: "@ + index_list_text(available) + ")"@,
        TargetErrorView::NoDisplays => "No displays found"@,
    }
}

impl TargetError {
    /// The message reported for the error.
    pub fn message(&self) -> (s: String)
        ensures
            s@ == target_error_text(self@),
    {
        match self {
            TargetError::DisplayNotFound { requested, available } => {
                let mut v: Vec<char> = Vec::new();
                append_str(&mut v, "Display ");
                push_decimal(&mut v, *requested as u64);
                append_str(&mut v, " does not exist (available: ");
                let list = index_list(available.as_slice());
                append_str(&mut v, list.as_str());
                append_str(&mut v, ")");
                string_of(v.as_slice())
            },
            TargetError::NoDisplays => "No displays found".to_owned(),
        }
    }
}

} // verus!
