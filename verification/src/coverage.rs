use vstd::prelude::*;

use crate::grid::{cell_at, lemma_row_major_bijection, GridCursor};

verus! {

/// Why a cell that rises above the elevation floor is not seen by the radar.
#[derive(Clone, Copy, Debug, PartialEq, Eq, Structural)]
pub enum OcclusionReason {
    /// The cell lies beyond the radio horizon of the radar and the target.
    RadioHorizon,
    /// Terrain between the radar and the cell blocks the line of sight.
    TerrainBlock,
}

/// The text that names a reason in coverage results.
pub open spec fn reason_label(reason: OcclusionReason) -> Seq<char> {
    match reason {
        OcclusionReason::RadioHorizon => "radio_horizon"@,
        OcclusionReason::TerrainBlock => "terrain_block"@,
    }
}

/// The two reasons carry the two names used in coverage results, and the
/// names differ.
pub proof fn lemma_reason_labels()
    ensures
        reason_label(OcclusionReason::RadioHorizon) == "radio_horizon"@,
        reason_label(OcclusionReason::TerrainBlock) == "terrain_block"@,
        reason_label(OcclusionReason::RadioHorizon) != reason_label(OcclusionReason::TerrainBlock),
{
    reveal_strlit("radio_horizon");
    reveal_strlit("terrain_block");
    assert(reason_label(OcclusionReason::RadioHorizon)[0] != reason_label(OcclusionReason::TerrainBlock)[0]);
}

impl OcclusionReason {
    /// The text that names this reason: `radio_horizon` or `terrain_block`.
    pub fn label(&self) -> (s: String)
        ensures
            s@ == reason_label(*self),
    {
        match self {
            OcclusionReason::RadioHorizon => "radio_horizon".to_owned(),
            OcclusionReason::TerrainBlock => "terrain_block".to_owned(),
        }
    }
}

/// Where one grid cell ends up in the coverage result.
#[derive(Clone, Copy, Debug, PartialEq, Eq, Structural)]
pub enum CellClass {
    /// The cell is left out: its elevation is missing or below the floor.
    Skipped,
    /// The radar sees a target above the cell.
    Visible,
    /// The radar does not see a target above the cell, for the given reason.
    Occluded(OcclusionReason),
}

/// The class of a cell: cells without usable ground are skipped; a usable
/// cell beyond the radio horizon is occluded by the horizon whatever the
/// terrain; otherwise the line of sight decides.
pub open spec fn cell_class(usable_ground: bool, beyond_radio_horizon: bool, line_of_sight: bool) -> CellClass {
    if !usable_ground {
        CellClass::Skipped
    } else if beyond_radio_horizon {
        CellClass::Occluded(OcclusionReason::RadioHorizon)
    } else if line_of_sight {
        CellClass::Visible
    } else {
        CellClass::Occluded(OcclusionReason::TerrainBlock)
    }
}

/// A cell is left out exactly when its ground is unusable; a usable cell
/// beyond the radio horizon is occluded by the horizon whatever its line of
/// sight; a usable cell within the horizon is visible exactly when the line
/// of sight is clear, and is otherwise blocked by terrain.
pub proof fn lemma_cell_class_placement(usable_ground: bool, beyond_radio_horizon: bool, line_of_sight: bool)
    ensures
        (cell_class(usable_ground, beyond_radio_horizon, line_of_sight) == CellClass::Skipped)
            <==> !usable_ground,
        usable_ground && beyond_radio_horizon ==> cell_class(
            usable_ground,
            beyond_radio_horizon,
            line_of_sight,
        ) == CellClass::Occluded(OcclusionReason::RadioHorizon),
        usable_ground && !beyond_radio_horizon && line_of_sight ==> cell_class(
            usable_ground,
            beyond_radio_horizon,
            line_of_sight,
        ) == CellClass::Visible,
        usable_ground && !beyond_radio_horizon && !line_of_sight ==> cell_class(
            usable_ground,
            beyond_radio_horizon,
            line_of_sight,
        ) == CellClass::Occluded(OcclusionReason::TerrainBlock),
{
}

/// Classifies one cell from the three tests made on it. `line_of_sight` is
/// only consulted for a usable cell within the radio horizon, so a caller may
/// skip the profile walk elsewhere and pass any value.
pub fn classify_cell(usable_ground: bool, beyond_radio_horizon: bool, line_of_sight: bool) -> (c: CellClass)
    ensures
        c == cell_class(usable_ground, beyond_radio_horizon, line_of_sight),
{
    if !usable_ground {
        CellClass::Skipped
    } else if beyond_radio_horizon {
        CellClass::Occluded(OcclusionReason::RadioHorizon)
    } else if line_of_sight {
        CellClass::Visible
    } else {
        CellClass::Occluded(OcclusionReason::TerrainBlock)
    }
}

/// True when no sample strictly between the two ends of a terrain profile
/// blocks the line of sight.
pub open spec fn interior_unblocked(blocked: Seq<bool>) -> bool {
    forall|i: int| 0 < i < blocked.len() - 1 ==> !#[trigger] blocked[i]
}

/// Decides the line of sight along a terrain profile, given for each sample
/// whether the terrain there (curvature included) rises above the straight
/// line from the radar to the target.
///
/// A profile without samples gives no line of sight; a profile of length
/// zero always gives one; otherwise the two end samples are not consulted and
/// the line is clear exactly when no other sample blocks it.
pub fn sight_line_clear(blocked: &[bool], zero_length: bool) -> (clear: bool)
    ensures
        clear == (blocked@.len() > 0 && (zero_length || interior_unblocked(blocked@))),
{
    let n = blocked.len();
    if n == 0 {
        return false;
    }
    if zero_length {
        return true;
    }
    let mut i: usize = 1;
    while i < n - 1
        invariant
            n == blocked@.len(),
            !zero_length,
            n > 0,
            1 <= i <= n,
            forall|j: int| 0 < j < i && j < n - 1 ==> !#[trigger] blocked@[j],
        decreases n - i,
    {
        if blocked[i] {
            return false;
        }
        i = i + 1;
    }
    true
}

/// The cells of a coverage computation, sorted into visible and occluded
/// ones in the order in which they were recorded.
pub struct CoverageSplit<P> {
    pub visible: Vec<P>,
    pub occluded: Vec<(P, OcclusionReason)>,
}

impl<P> CoverageSplit<P> {
    /// A split that holds no cell.
    pub fn new() -> (s: Self)
        ensures
            s.visible@.len() == 0,
            s.occluded@.len() == 0,
    {
        CoverageSplit { visible: Vec::new(), occluded: Vec::new() }
    }

    /// Records `point` under its class: appended to the visible cells, to the
    /// occluded cells with its reason, or dropped when skipped.
    pub fn record(&mut self, point: P, class: CellClass)
        ensures
            class == CellClass::Skipped ==> final(self).visible@ == old(self).visible@
                && final(self).occluded@ == old(self).occluded@,
            class == CellClass::Visible ==> final(self).visible@ == old(self).visible@.push(point)
                && final(self).occluded@ == old(self).occluded@,
            forall|reason: OcclusionReason|
                class == CellClass::Occluded(reason) ==> final(self).visible@
                    == old(self).visible@ && final(self).occluded@
                    == old(self).occluded@.push((point, reason)),
    {
        match class {
            CellClass::Skipped => {},
            CellClass::Visible => {
                self.visible.push(point);
            },
            CellClass::Occluded(reason) => {
                self.occluded.push((point, reason));
            },
        }
    }
}

/// The visible cells and the occluded cells, with their reasons, of a
/// sequence of classified cells, each list in the order of the sequence.
pub open spec fn split_of<P>(cells: Seq<(P, CellClass)>) -> (Seq<P>, Seq<(P, OcclusionReason)>)
    decreases cells.len(),
{
    if cells.len() == 0 {
        (seq![], seq![])
    } else {
        let (visible, occluded) = split_of(cells.drop_last());
        let (point, class) = cells.last();
        match class {
            CellClass::Skipped => (visible, occluded),
            CellClass::Visible => (visible.push(point), occluded),
            CellClass::Occluded(reason) => (visible, occluded.push((point, reason))),
        }
    }
}

/// Walks the cells of a grid of `height` rows of `width` cells row by row,
/// has `measure` build and classify the point over each cell, and sorts the
/// points into visible and occluded ones.
///
/// The result is the split of the sequence of what `measure` returned for
/// the cells in row-major order: cell `k` of the walk is row `k / width`,
/// column `k % width`. Equivalently, the visible list holds the points of
/// the cells classified visible and the occluded list the points of the
/// occluded cells with their own reasons, each in walk order.
pub fn sweep_cells<P, F: Fn(usize, usize) -> (P, CellClass)>(
    width: usize,
    height: usize,
    measure: F,
) -> (s: CoverageSplit<P>)
    requires
        width > 0,
        width * height <= usize::MAX,
        forall|r: usize, c: usize| r < height && c < width ==> call_requires(measure, (r, c)),
    ensures
        exists|cells: Seq<(P, CellClass)>|
            {
                &&& cells.len() == width * height
                &&& forall|k: int|
                    0 <= k < cells.len() ==> call_ensures(
                        measure,
                        ((k / width as int) as usize, (k % width as int) as usize),
                        #[trigger] cells[k],
                    )
                &&& (s.visible@, s.occluded@) == split_of(cells)
                &&& s.visible@ == cells.filter_map(|c: (P, CellClass)| visible_point(c))
                &&& s.occluded@ == cells.filter_map(|c: (P, CellClass)| occluded_point(c))
            },
{
    let mut split = CoverageSplit::new();
    let mut cursor = GridCursor::new(width, height);
    let ghost mut cells: Seq<(P, CellClass)> = seq![];
    proof {
        lemma_row_major_bijection(width as int, height as int);
    }
    loop
        invariant
            width > 0,
            forall|r: usize, c: usize| r < height && c < width ==> call_requires(measure, (r, c)),
            cursor.width_of() == width,
            cursor.height_of() == height,
            cursor.position() <= width * height,
            cells.len() == cursor.position(),
            forall|k: int|
                0 <= k < cells.len() ==> call_ensures(
                    measure,
                    ((k / width as int) as usize, (k % width as int) as usize),
                    #[trigger] cells[k],
                ),
            (split.visible@, split.occluded@) == split_of(cells),
            forall|k: int|
                0 <= k < width * height ==> {
                    let (r, c) = #[trigger] cell_at(k, width as int);
                    &&& 0 <= r < height
                    &&& 0 <= c < width
                },
        ensures
            cells.len() == width * height,
            forall|k: int|
                0 <= k < cells.len() ==> call_ensures(
                    measure,
                    ((k / width as int) as usize, (k % width as int) as usize),
                    #[trigger] cells[k],
                ),
            (split.visible@, split.occluded@) == split_of(cells),
        decreases width * height - cursor.position(),
    {
        let ghost k = cursor.position() as int;
        match cursor.next_cell() {
            None => {
                break;
            },
            Some((row, col)) => {
                proof {
                    let _ = cell_at(k, width as int);
                }
                let (point, class) = measure(row, col);
                let ghost before = cells;
                proof {
                    cells = cells.push((point, class));
                    assert(cells.drop_last() =~= before);
                }
                split.record(point, class);
            },
        }
    }
    proof {
        lemma_split_is_per_cell(cells);
    }
    split
}

/// The point of a visible cell; nothing for any other cell.
pub open spec fn visible_point<P>(cell: (P, CellClass)) -> Option<P> {
    if cell.1 == CellClass::Visible {
        Some(cell.0)
    } else {
        None
    }
}

/// The point and reason of an occluded cell; nothing for any other cell.
pub open spec fn occluded_point<P>(cell: (P, CellClass)) -> Option<(P, OcclusionReason)> {
    match cell.1 {
        CellClass::Occluded(reason) => Some((cell.0, reason)),
        _ => None,
    }
}

/// The split treats each cell on its own: the visible list holds the points
/// of exactly the cells classified visible, and the occluded list the points
/// of exactly the occluded cells, each with that cell's own reason, both in
/// the order of the cells.
pub proof fn lemma_split_is_per_cell<P>(cells: Seq<(P, CellClass)>)
    ensures
        split_of(cells).0 == cells.filter_map(|c: (P, CellClass)| visible_point(c)),
        split_of(cells).1 == cells.filter_map(|c: (P, CellClass)| occluded_point(c)),
    decreases cells.len(),
{
    if cells.len() > 0 {
        lemma_split_is_per_cell(cells.drop_last());
        let (point, class) = cells.last();
        match class {
            CellClass::Skipped => {},
            CellClass::Visible => {
                assert(split_of(cells).0 =~= cells.filter_map(|c: (P, CellClass)| visible_point(c)));
            },
            CellClass::Occluded(reason) => {
                assert(split_of(cells).1 =~= cells.filter_map(
                    |c: (P, CellClass)| occluded_point(c),
                ));
            },
        }
    }
}

/// Adding one more cell adds its point to the list of its class, with its own
/// reason, and leaves the other list as it was; a skipped cell changes
/// nothing.
pub proof fn lemma_split_push<P>(cells: Seq<(P, CellClass)>, point: P, class: CellClass)
    ensures
        class == CellClass::Visible ==> split_of(cells.push((point, class))) == (
            split_of(cells).0.push(point),
            split_of(cells).1,
        ),
        forall|reason: OcclusionReason|
            class == CellClass::Occluded(reason) ==> split_of(cells.push((point, class))) == (
                split_of(cells).0,
                split_of(cells).1.push((point, reason)),
            ),
        class == CellClass::Skipped ==> split_of(cells.push((point, class))) == split_of(cells),
{
    assert(cells.push((point, class)).drop_last() =~= cells);
}

/// The visible list has one entry per visible cell and the occluded list one
/// per occluded cell; skipped cells appear in neither.
pub proof fn lemma_split_counts<P>(cells: Seq<(P, CellClass)>)
    ensures
        split_of(cells).0.len() == cells.filter(|c: (P, CellClass)| c.1 == CellClass::Visible).len(),
        split_of(cells).1.len() == cells.filter(|c: (P, CellClass)| c.1 is Occluded).len(),
        split_of(cells).0.len() + split_of(cells).1.len() == cells.filter(
            |c: (P, CellClass)| c.1 != CellClass::Skipped,
        ).len(),
    decreases cells.len(),
{
    reveal(Seq::filter);
    if cells.len() > 0 {
        lemma_split_counts(cells.drop_last());
    }
}

/// The line of sight never depends on the two end samples, any blocked
/// interior sample closes it, and a profile whose interior is unblocked is
/// clear.
pub proof fn lemma_sight_line_samples(blocked: Seq<bool>, i: int, end_value: bool)
    requires
        0 <= i < blocked.len(),
    ensures
        interior_unblocked(blocked) == interior_unblocked(blocked.update(0, end_value)),
        interior_unblocked(blocked) == interior_unblocked(
            blocked.update(blocked.len() - 1, end_value),
        ),
        0 < i < blocked.len() - 1 && blocked[i] ==> !interior_unblocked(blocked),
        (forall|j: int| 0 < j < blocked.len() - 1 ==> blocked[j] == false) ==> interior_unblocked(
            blocked,
        ),
{
    let a = blocked.update(0, end_value);
    let z = blocked.update(blocked.len() - 1, end_value);
    assert forall|j: int| 0 < j < blocked.len() - 1 implies a[j] == blocked[j] && z[j]
        == blocked[j] by {}
    if interior_unblocked(a) {
        assert forall|j: int| 0 < j < blocked.len() - 1 implies !blocked[j] by {
            assert(a[j] == blocked[j]);
        }
    }
    if interior_unblocked(z) {
        assert forall|j: int| 0 < j < blocked.len() - 1 implies !blocked[j] by {
            assert(z[j] == blocked[j]);
        }
    }
}

} // verus!
