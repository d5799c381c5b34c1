//! Terminal layout: maps (terminal width, terminal height, command count) to
//! one fixed output region per command. Pure and deterministic; regions are
//! assigned once per run and never overlap as long as the terminal has at
//! least one row per command.

use vstd::prelude::*;

verus! {

/// The terminal rows reserved for one command's live output during a run.
#[derive(Clone, Copy, Debug, PartialEq, Eq, Structural)]
pub struct ExecutionRegion {
    /// Index of the command this region belongs to.
    pub index: usize,
    /// First terminal row of the region.
    pub top: u16,
    /// Number of rows in the region.
    pub height: u16,
    /// Width of the region (the full terminal width).
    pub width: u16,
}

/// Rows granted to each command: the terminal height divided evenly,
/// rounded down; zero when there are no commands.
pub open spec fn spec_row_unit(height: u16, n: nat) -> nat {
    if n == 0 {
        0
    } else {
        (height as nat) / n
    }
}

/// The height of every region: the even share, clamped up to one row so that
/// a region exists even on a terminal with fewer rows than commands.
pub open spec fn spec_region_height(height: u16, n: nat) -> nat {
    if spec_row_unit(height, n) < 1 {
        1
    } else {
        spec_row_unit(height, n)
    }
}

/// The region assigned to command `i` out of `n` on a terminal of the given
/// width and height.
pub open spec fn spec_region(width: u16, height: u16, n: nat, i: nat) -> ExecutionRegion {
    ExecutionRegion {
        index: i as usize,
        top: (i * spec_row_unit(height, n)) as u16,
        height: spec_region_height(height, n) as u16,
        width: width,
    }
}

/// The even share times the command count never exceeds the terminal height.
proof fn lemma_unit_times_n_bounded(height: u16, n: nat)
    requires
        1 <= n,
    ensures
        n * spec_row_unit(height, n) <= height as nat,
{
    let unit = spec_row_unit(height, n);
    vstd::arithmetic::div_mod::lemma_fundamental_div_mod(height as int, n as int);
    vstd::arithmetic::div_mod::lemma_mod_bound(height as int, n as int);
}

/// Every region row index stays below the terminal height, so the `top` of a
/// region fits in sixteen bits and `spec_region` loses nothing to truncation.
proof fn lemma_top_bounded(height: u16, n: nat, i: nat)
    requires
        1 <= n,
        i < n,
    ensures
        i * spec_row_unit(height, n) <= height as nat,
        i * spec_row_unit(height, n) + spec_row_unit(height, n) <= height as nat
            || spec_row_unit(height, n) == 0,
{
    let unit = spec_row_unit(height, n);
    lemma_unit_times_n_bounded(height, n);
    vstd::arithmetic::mul::lemma_mul_inequality((i + 1) as int, n as int, unit as int);
    vstd::arithmetic::mul::lemma_mul_is_distributive_add_other_way(unit as int, i as int, 1);
}

/// Computes the `n` regions for one run, ordered by command index: each gets
/// `floor(height / n)` rows starting at `index * floor(height / n)` and the
/// full terminal width, with the height clamped up to one row on a terminal
/// too small for an even share. No commands yield no regions.
pub fn compute_regions(width: u16, height: u16, n: usize) -> (r: Vec<ExecutionRegion>)
    ensures
        r@.len() == n,
        forall|i: int| 0 <= i < n ==> r@[i] == spec_region(width, height, n as nat, i as nat),
{
    let mut r: Vec<ExecutionRegion> = Vec::new();
    if n == 0 {
        return r;
    }
    let unit: usize = (height as usize) / n;
    let region_height: u16 = if unit < 1 {
        1
    } else {
        unit as u16
    };
    let mut i: usize = 0;
    while i < n
        invariant
            0 < n,
            i <= n,
            unit == spec_row_unit(height, n as nat),
            region_height as nat == spec_region_height(height, n as nat),
            r@.len() == i,
            forall|j: int|
                0 <= j < i ==> r@[j] == spec_region(width, height, n as nat, j as nat),
        decreases n - i,
    {
        proof {
            lemma_top_bounded(height, n as nat, i as nat);
        }
        let top: u16 = ((i * unit) as u16);
        r.push(ExecutionRegion { index: i, top: top, height: region_height, width: width });
        i = i + 1;
    }
    r
}

/// True when the row ranges of `a` and `b` share no terminal row.
pub open spec fn regions_disjoint(a: ExecutionRegion, b: ExecutionRegion) -> bool {
    a.top + a.height <= b.top || b.top + b.height <= a.top
}

/// True when every row of `a` lies within a terminal of the given height.
pub open spec fn region_in_bounds(a: ExecutionRegion, height: u16) -> bool {
    a.top + a.height <= height
}

/// Law: whenever the terminal has at least one row per command, the assigned
/// region row ranges are pairwise disjoint and all lie within
/// `[0, height)`.
pub proof fn lemma_regions_disjoint_in_bounds(width: u16, height: u16, n: nat)
    requires
        1 <= n <= height as nat,
    ensures
        forall|i: nat|
            i < n ==> #[trigger] region_in_bounds(spec_region(width, height, n, i), height),
        forall|i: nat, j: nat|
            i < j < n ==> regions_disjoint(
                #[trigger] spec_region(width, height, n, i),
                #[trigger] spec_region(width, height, n, j),
            ),
{
    let unit = spec_row_unit(height, n);
    assert(unit >= 1) by {
        vstd::arithmetic::div_mod::lemma_div_non_zero(height as int, n as int);
    }
    assert forall|i: nat| i < n implies #[trigger] region_in_bounds(
        spec_region(width, height, n, i),
        height,
    ) by {
        lemma_top_bounded(height, n, i);
    }
    assert forall|i: nat, j: nat| i < j < n implies regions_disjoint(
        #[trigger] spec_region(width, height, n, i),
        #[trigger] spec_region(width, height, n, j),
    ) by {
        lemma_top_bounded(height, n, i);
        lemma_top_bounded(height, n, j);
        vstd::arithmetic::mul::lemma_mul_is_distributive_add_other_way(
            unit as int,
            i as int,
            1,
        );
        vstd::arithmetic::mul::lemma_mul_inequality((i + 1) as int, j as int, unit as int);
    }
}

/// Law: the layout is a function of terminal width, terminal height and
/// command count alone — equal inputs always receive equal regions.
pub proof fn lemma_layout_deterministic(
    w1: u16,
    h1: u16,
    n1: nat,
    w2: u16,
    h2: u16,
    n2: nat,
)
    requires
        w1 == w2,
        h1 == h2,
        n1 == n2,
    ensures
        forall|i: nat| i < n1 ==> spec_region(w1, h1, n1, i) == spec_region(w2, h2, n2, i),
{
}

impl ExecutionRegion {
    /// The row where a command's next output line goes, given the row its
    /// last line went to: the row below, clamped to the region's last row so
    /// that a full region keeps an always-current tail instead of spilling
    /// into a neighbour.
    pub fn next_row(&self, current: u16) -> (r: u16)
        requires
            1 <= self.height,
            self.top + self.height <= u16::MAX,
            self.top <= current < self.top + self.height,
        ensures
            self.top <= r < self.top + self.height,
            r as int == if current + 1 < self.top + self.height {
                current + 1
            } else {
                self.top + self.height - 1
            },
    {
        let last = self.top + self.height - 1;
        if current < last {
            current + 1
        } else {
            last
        }
    }
}

} // verus!
