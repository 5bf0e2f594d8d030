//! Simulation core for elementary 1D cellular automata.
//!
//! This module holds the cell update rule, the row stepping function, and a
//! helper for building an initial row from a short seed. It is independent of
//! any output format.
//!
//! The mathematical model: a row is a `Seq<u8>`; a rule is its 8-entry
//! lookup table ([`rule_table`] of its Wolfram number); [`next_cell`] gives
//! the next state of one cell from its neighbourhood and [`step`] the next
//! row from the previous one.
use vstd::prelude::*;

verus! {

/// How the cells at the left and right edges of the row see their off-grid
/// neighbours.
///
/// - `ZeroPadded`: the missing neighbour is the boundary fill (`0` for a
///   plain simulation). Patterns can grow off the edge and disappear forever.
/// - `Wrap`: the two edges are glued together so the row becomes a circle.
#[derive(Debug, Clone, Copy, PartialEq, Eq)]
pub enum BoundaryMode {
    ZeroPadded,
    Wrap,
}

impl BoundaryMode {
    /// Every variant, in display order.
    pub const ALL: [BoundaryMode; 2] = [BoundaryMode::ZeroPadded, BoundaryMode::Wrap];

    /// The label shown to people for this mode.
    pub fn label(self) -> (r: &'static str)
        ensures
            r@ == boundary_label(self),
    {
        match self {
            BoundaryMode::ZeroPadded => "Padded",
            BoundaryMode::Wrap => "Wrap-around",
        }
    }
}

/// The label of a boundary mode.
pub open spec fn boundary_label(mode: BoundaryMode) -> Seq<char> {
    match mode {
        BoundaryMode::ZeroPadded => "Padded"@,
        BoundaryMode::Wrap => "Wrap-around"@,
    }
}

/// Where the seed pattern sits inside the initial row when the seed is
/// narrower than the row width.
#[derive(Debug, Clone, Copy, PartialEq, Eq)]
pub enum PaddingAlign {
    /// Seed is placed at the left edge; the remaining cells are filled.
    After,
    /// Seed is placed at the right edge; the remaining cells are filled
    /// before it.
    Before,
    /// Seed is centered horizontally.
    Center,
}

impl PaddingAlign {
    /// Every variant, in display order.
    pub const ALL: [PaddingAlign; 3] = [PaddingAlign::After, PaddingAlign::Before, PaddingAlign::Center];

    /// The label shown to people for this alignment.
    pub fn label(self) -> (r: &'static str)
        ensures
            r@ == align_label(self),
    {
        match self {
            PaddingAlign::After => "Padding after",
            PaddingAlign::Before => "Padding before",
            PaddingAlign::Center => "Centered",
        }
    }
}

/// The label of a padding alignment.
pub open spec fn align_label(align: PaddingAlign) -> Seq<char> {
    match align {
        PaddingAlign::After => "Padding after"@,
        PaddingAlign::Before => "Padding before"@,
        PaddingAlign::Center => "Centered"@,
    }
}

/// What value the cells outside the seed take in the initial row.
#[derive(Debug, Clone, Copy, PartialEq, Eq)]
pub enum PaddingFill {
    Zero,
    One,
}

/// The cell value that a fill choice stands for.
pub open spec fn fill_value(fill: PaddingFill) -> u8 {
    match fill {
        PaddingFill::Zero => 0,
        PaddingFill::One => 1,
    }
}

impl PaddingFill {
    /// Every variant, in display order.
    pub const ALL: [PaddingFill; 2] = [PaddingFill::Zero, PaddingFill::One];

    /// Returns the raw `u8` (0 or 1) for this fill choice.
    pub fn value(self) -> (r: u8)
        ensures
            r == fill_value(self),
    {
        match self {
            PaddingFill::Zero => 0,
            PaddingFill::One => 1,
        }
    }

    /// The label shown to people for this fill.
    pub fn label(self) -> (r: &'static str)
        ensures
            r@ == fill_label(self),
    {
        match self {
            PaddingFill::Zero => "Fill 0s",
            PaddingFill::One => "Fill 1s",
        }
    }
}

/// The label of a padding fill.
pub open spec fn fill_label(fill: PaddingFill) -> Seq<char> {
    match fill {
        PaddingFill::Zero => "Fill 0s"@,
        PaddingFill::One => "Fill 1s"@,
    }
}

/// Bit `i` of `x`.
pub open spec fn bit(x: u8, i: u8) -> u8 {
    (x >> i) & 1
}

/// The index of a (left, center, right) neighbourhood in the rule table: the
/// number whose binary digits are the low bits of the three cells.
pub open spec fn neighbourhood(left: u8, center: u8, right: u8) -> u8 {
    (4 * (left % 2) + 2 * (center % 2) + right % 2) as u8
}

/// The lookup table that a Wolfram number names: entry `i` is bit `i` of
/// the number.
pub open spec fn rule_table(number: u8) -> Seq<u8> {
    Seq::new(8, |i: int| bit(number, i as u8))
}

/// Next state of a cell under a rule table: the entry of its neighbourhood.
pub open spec fn next_cell(table: Seq<u8>, left: u8, center: u8, right: u8) -> u8 {
    table[neighbourhood(left, center, right) as int]
}

/// What cell `i` of `prev` sees on its left.
pub open spec fn left_of(prev: Seq<u8>, i: int, boundary: BoundaryMode, fill: u8) -> u8 {
    if i == 0 {
        match boundary {
            BoundaryMode::ZeroPadded => fill,
            BoundaryMode::Wrap => prev[prev.len() - 1],
        }
    } else {
        prev[i - 1]
    }
}

/// What cell `i` of `prev` sees on its right.
pub open spec fn right_of(prev: Seq<u8>, i: int, boundary: BoundaryMode, fill: u8) -> u8 {
    if i == prev.len() - 1 {
        match boundary {
            BoundaryMode::ZeroPadded => fill,
            BoundaryMode::Wrap => prev[0],
        }
    } else {
        prev[i + 1]
    }
}

/// The row that follows `prev` under a rule table.
pub open spec fn step(table: Seq<u8>, prev: Seq<u8>, boundary: BoundaryMode, fill: u8) -> Seq<u8> {
    Seq::new(
        prev.len(),
        |i: int| next_cell(table, left_of(prev, i, boundary, fill), prev[i], right_of(prev, i, boundary, fill)),
    )
}

/// Row `k` of a simulation that starts from `initial` (row 0), with the
/// boundary fill of a plain simulation (`0`).
pub open spec fn generation(table: Seq<u8>, initial: Seq<u8>, boundary: BoundaryMode, k: nat) -> Seq<u8>
    decreases k,
{
    if k == 0 {
        initial
    } else {
        step(table, generation(table, initial, boundary, (k - 1) as nat), boundary, 0)
    }
}

/// Every cell of the row is `0` or `1`.
pub open spec fn is_binary(row: Seq<u8>) -> bool {
    forall|i: int| 0 <= i < row.len() ==> #[trigger] row[i] <= 1
}

proof fn lemma_bit_binary(x: u8, i: u8)
    ensures
        bit(x, i) <= 1,
{
    assert((x >> i) & 1 <= 1) by (bit_vector);
}

/// The table of every rule number has eight binary entries.
pub proof fn lemma_rule_table_binary(number: u8)
    ensures
        rule_table(number).len() == 8,
        is_binary(rule_table(number)),
{
    let t = rule_table(number);
    assert forall|i: int| 0 <= i < t.len() implies #[trigger] t[i] <= 1 by {
        lemma_bit_binary(number, i as u8);
    }
}

/// Every row that a binary rule table produces is binary, whatever the
/// previous row held.
pub proof fn lemma_step_binary(table: Seq<u8>, prev: Seq<u8>, boundary: BoundaryMode, fill: u8)
    requires
        table.len() == 8,
        is_binary(table),
    ensures
        step(table, prev, boundary, fill).len() == prev.len(),
        is_binary(step(table, prev, boundary, fill)),
{
    let s = step(table, prev, boundary, fill);
    assert forall|i: int| 0 <= i < s.len() implies #[trigger] s[i] <= 1 by {
        let n = neighbourhood(left_of(prev, i, boundary, fill), prev[i], right_of(prev, i, boundary, fill));
        assert(0 <= n < 8);
    }
}

/// Every generation has the width of the initial row, and under a binary
/// table every generation after the first is binary.
pub proof fn lemma_generation_shape(table: Seq<u8>, initial: Seq<u8>, boundary: BoundaryMode, k: nat)
    ensures
        generation(table, initial, boundary, k).len() == initial.len(),
        k > 0 && table.len() == 8 && is_binary(table) ==> is_binary(generation(table, initial, boundary, k)),
    decreases k,
{
    if k > 0 {
        lemma_generation_shape(table, initial, boundary, (k - 1) as nat);
        if table.len() == 8 && is_binary(table) {
            lemma_step_binary(table, generation(table, initial, boundary, (k - 1) as nat), boundary, 0);
        }
    }
}

/// Rule 0 turns every row into a row of zeros ("everything dies").
pub proof fn lemma_rule_0_clears(prev: Seq<u8>, boundary: BoundaryMode, fill: u8)
    ensures
        forall|i: int| 0 <= i < prev.len() ==> #[trigger] step(rule_table(0), prev, boundary, fill)[i] == 0,
{
    assert forall|i: int| 0 <= i < prev.len() implies #[trigger] step(rule_table(0), prev, boundary, fill)[i] == 0 by {
        let n = neighbourhood(left_of(prev, i, boundary, fill), prev[i], right_of(prev, i, boundary, fill));
        assert((0u8 >> n) & 1 == 0) by (bit_vector);
    }
}

/// Rule 255 turns every row into a row of ones ("everything turns on").
pub proof fn lemma_rule_255_fills(prev: Seq<u8>, boundary: BoundaryMode, fill: u8)
    ensures
        forall|i: int| 0 <= i < prev.len() ==> #[trigger] step(rule_table(255), prev, boundary, fill)[i] == 1,
{
    assert forall|i: int| 0 <= i < prev.len() implies #[trigger] step(rule_table(255), prev, boundary, fill)[i] == 1 by {
        let n = neighbourhood(left_of(prev, i, boundary, fill), prev[i], right_of(prev, i, boundary, fill));
        assert(n < 8);
        assert(n < 8 ==> (255u8 >> n) & 1 == 1) by (bit_vector);
    }
}

/// Under the table of a rule number, a cell's next state is bit `i` of the
/// number, where `i` is the neighbourhood read as a binary number.
pub proof fn lemma_rule_number_bits(number: u8, left: u8, center: u8, right: u8)
    ensures
        next_cell(rule_table(number), left, center, right) == bit(number, neighbourhood(left, center, right)),
{
}

/// The row shifted one place to the left, its first cell moved to the end.
pub open spec fn rotate_left(s: Seq<u8>) -> Seq<u8> {
    Seq::new(s.len(), |i: int| if i < s.len() - 1 { s[i + 1] } else { s[0] })
}

/// With `Wrap` the row is a circle: stepping a rotated row gives the rotated
/// step of the row.
pub proof fn lemma_wrap_commutes_with_rotation(table: Seq<u8>, prev: Seq<u8>, fill: u8)
    ensures
        step(table, rotate_left(prev), BoundaryMode::Wrap, fill) == rotate_left(step(table, prev, BoundaryMode::Wrap, fill)),
{
    let n = prev.len() as int;
    let r = rotate_left(prev);
    let a = step(table, r, BoundaryMode::Wrap, fill);
    let s = step(table, prev, BoundaryMode::Wrap, fill);
    let b = rotate_left(s);
    assert forall|i: int| 0 <= i < n implies a[i] == b[i] by {
        let j = if i < n - 1 { i + 1 } else { 0 };
        assert(b[i] == s[j]);
        assert(r[i] == prev[j]);
        assert(left_of(r, i, BoundaryMode::Wrap, fill) == left_of(prev, j, BoundaryMode::Wrap, fill));
        assert(right_of(r, i, BoundaryMode::Wrap, fill) == right_of(prev, j, BoundaryMode::Wrap, fill));
    }
    assert(a =~= b);
}

/// An elementary cellular automaton rule, identified by Wolfram's 0-255
/// numbering.
///
/// The 8-bit rule number names a lookup table of size 8: one entry for each
/// of the eight possible (left, center, right) neighbourhoods. Bit `i` of the
/// number is the next state when the neighbourhood is the binary
/// representation of `i`.
#[derive(Debug)]
pub struct Rule {
    /// The 0-255 Wolfram rule number.
    number: u8,
    table: [u8; 8],
}

impl Rule {
    /// The Wolfram number of the rule.
    pub closed spec fn rule_number(&self) -> u8 {
        self.number
    }

    /// The table is always the one that the rule number names.
    #[verifier::type_invariant]
    closed spec fn table_matches_number(self) -> bool {
        self.table@ == rule_table(self.number)
    }

    /// Build a rule from its Wolfram number (0-255).
    pub fn new(number: u8) -> (r: Self)
        ensures
            r.rule_number() == number,
    {
        let table: [u8; 8] = [
            number & 1,
            (number >> 1u8) & 1,
            (number >> 2u8) & 1,
            (number >> 3u8) & 1,
            (number >> 4u8) & 1,
            (number >> 5u8) & 1,
            (number >> 6u8) & 1,
            (number >> 7u8) & 1,
        ];
        assert(number & 1 == (number >> 0u8) & 1) by (bit_vector);
        assert forall|i: int| 0 <= i < 8 implies #[trigger] table@[i] == bit(number, i as u8) by {
            if i == 0 {
            } else if i == 1 {
            } else if i == 2 {
            } else if i == 3 {
            } else if i == 4 {
            } else if i == 5 {
            } else if i == 6 {
            } else {
            }
        }
        assert(table@ =~= rule_table(number));
        Rule { number, table }
    }

    /// The 0-255 Wolfram rule number.
    pub fn number(&self) -> (r: u8)
        ensures
            r == self.rule_number(),
    {
        self.number
    }

    /// Apply the rule to a single (left, center, right) triple; only the low
    /// bit of each input counts.
    pub fn apply(&self, left: u8, center: u8, right: u8) -> (r: u8)
        ensures
            r == next_cell(rule_table(self.rule_number()), left, center, right),
            r <= 1,
    {
        proof {
            use_type_invariant(self);
            lemma_rule_table_binary(self.number);
        }
        let idx: u8 = ((left & 1) << 2u8) | ((center & 1) << 1u8) | (right & 1);
        assert(((left & 1) << 2u8) | ((center & 1) << 1u8) | (right & 1) == 4 * (left % 2) + 2 * (
        center % 2) + right % 2) by (bit_vector);
        self.table[idx as usize]
    }

    /// Read-only view of the 8-entry lookup table.
    pub fn table(&self) -> (r: &[u8; 8])
        ensures
            r@ == rule_table(self.rule_number()),
    {
        proof {
            use_type_invariant(self);
        }
        &self.table
    }
}

impl Clone for Rule {
    fn clone(&self) -> (r: Self)
        ensures
            r.rule_number() == self.rule_number(),
    {
        proof {
            use_type_invariant(self);
        }
        Rule { number: self.number, table: self.table }
    }
}

/// Cell `i` of the next row is the table entry of its neighbourhood read as
/// a binary number: its left neighbour (the previous cell; at the left edge
/// the last cell when wrapping, the fill when padded), the cell itself, and
/// its right neighbour (the next cell; at the right edge the first cell when
/// wrapping, the fill when padded).
pub open spec fn next_row_law(table: Seq<u8>, prev: Seq<u8>, next: Seq<u8>, boundary: BoundaryMode, fill: u8) -> bool {
    let n = prev.len() as int;
    &&& next.len() == n
    &&& forall|i: int| 0 <= i < n ==> {
        let l: u8 = if i > 0 {
            prev[i - 1]
        } else if boundary == BoundaryMode::Wrap {
            prev[n - 1]
        } else {
            fill
        };
        let r: u8 = if i < n - 1 {
            prev[i + 1]
        } else if boundary == BoundaryMode::Wrap {
            prev[0]
        } else {
            fill
        };
        #[trigger] next[i] == table[4 * (l % 2) + 2 * (prev[i] % 2) + r % 2]
    }
}

/// The stepped row follows [`next_row_law`].
pub proof fn lemma_step_law(table: Seq<u8>, prev: Seq<u8>, boundary: BoundaryMode, fill: u8)
    ensures
        next_row_law(table, prev, step(table, prev, boundary, fill), boundary, fill),
{
}

/// In `ZeroPadded` mode the edge cells see the fill, not the other edge:
/// for a row of two or more cells the last cell is the table entry of
/// (second to last, last, fill) and the first that of (fill, first, second).
pub proof fn lemma_padded_edges(table: Seq<u8>, prev: Seq<u8>, fill: u8)
    requires
        prev.len() >= 2,
    ensures
        ({
            let n = prev.len() as int;
            let s = step(table, prev, BoundaryMode::ZeroPadded, fill);
            &&& s[n - 1] == table[4 * (prev[n - 2] % 2) + 2 * (prev[n - 1] % 2) + fill % 2]
            &&& s[0] == table[4 * (fill % 2) + 2 * (prev[0] % 2) + prev[1] % 2]
        }),
{
    lemma_step_law(table, prev, BoundaryMode::ZeroPadded, fill);
    let n = prev.len() as int;
    let s = step(table, prev, BoundaryMode::ZeroPadded, fill);
    assert(s[n - 1] == s[n - 1]);
    assert(s[0] == s[0]);
}

/// Write the next generation row into `next`: cell `i` of `next` becomes the
/// rule applied to what cell `i` of `prev` sees. In `ZeroPadded` mode the
/// off-grid neighbours are `boundary_fill` (only its low bit counts); in
/// `Wrap` mode the row is a circle. This function does not allocate.
pub fn step_row_into(rule: &Rule, prev: &[u8], next: &mut [u8], boundary: BoundaryMode, boundary_fill: u8)
    requires
        old(next)@.len() == prev@.len(),
    ensures
        final(next)@ == step(rule_table(rule.rule_number()), prev@, boundary, boundary_fill),
        next_row_law(rule_table(rule.rule_number()), prev@, final(next)@, boundary, boundary_fill),
        is_binary(final(next)@),
{
    proof {
        lemma_step_law(rule_table(rule.rule_number()), prev@, boundary, boundary_fill);
        lemma_rule_table_binary(rule.rule_number());
        lemma_step_binary(rule_table(rule.rule_number()), prev@, boundary, boundary_fill);
    }
    let width = prev.len();
    if width == 0 {
        assert(next@ =~= step(rule_table(rule.rule_number()), prev@, boundary, boundary_fill));
        return;
    }
    let ghost target = step(rule_table(rule.rule_number()), prev@, boundary, boundary_fill);
    let fill = boundary_fill & 1;
    assert(fill % 2 == boundary_fill % 2) by (bit_vector)
        requires fill == boundary_fill & 1;
    match boundary {
        BoundaryMode::ZeroPadded => {
            if width == 1 {
                next[0] = rule.apply(fill, prev[0], fill);
            } else {
                next[0] = rule.apply(fill, prev[0], prev[1]);
                for i in 1..width - 1
                    invariant
                        width == prev@.len(),
                        width >= 2,
                        next@.len() == width,
                        target == step(rule_table(rule.rule_number()), prev@, boundary, boundary_fill),
                        boundary == BoundaryMode::ZeroPadded,
                        fill % 2 == boundary_fill % 2,
                        next@[0] == target[0],
                        forall|j: int| 1 <= j < i ==> #[trigger] next@[j] == target[j],
                {
                    next[i] = rule.apply(prev[i - 1], prev[i], prev[i + 1]);
                }
                next[width - 1] = rule.apply(prev[width - 2], prev[width - 1], fill);
            }
        },
        BoundaryMode::Wrap => {
            if width == 1 {
                let c = prev[0];
                next[0] = rule.apply(c, c, c);
                assert(next@ =~= target);
                return;
            }
            next[0] = rule.apply(prev[width - 1], prev[0], prev[1]);
            for i in 1..width - 1
                invariant
                    width == prev@.len(),
                    width >= 2,
                    next@.len() == width,
                    target == step(rule_table(rule.rule_number()), prev@, boundary, boundary_fill),
                    boundary == BoundaryMode::Wrap,
                    next@[0] == target[0],
                    forall|j: int| 1 <= j < i ==> #[trigger] next@[j] == target[j],
            {
                next[i] = rule.apply(prev[i - 1], prev[i], prev[i + 1]);
            }
            next[width - 1] = rule.apply(prev[width - 2], prev[width - 1], prev[0]);
        },
    }
    assert(next@ =~= target);
}

/// Allocating variant of [`step_row_into`]: returns a freshly allocated next
/// row instead of writing into a caller-owned buffer.
pub fn step_row(rule: &Rule, prev: &[u8], boundary: BoundaryMode, boundary_fill: u8) -> (r: Vec<u8>)
    ensures
        r@ == step(rule_table(rule.rule_number()), prev@, boundary, boundary_fill),
        next_row_law(rule_table(rule.rule_number()), prev@, r@, boundary, boundary_fill),
        is_binary(r@),
{
    let mut next = vec![0u8; prev.len()];
    step_row_into(rule, prev, next.as_mut_slice(), boundary, boundary_fill);
    next
}

/// The number of seed cells that fit in a row of `width` cells.
pub open spec fn seed_fit(width: int, seed_len: int) -> int {
    if seed_len < width { seed_len } else { width }
}

/// Index of the first seed cell in a row of `width` cells.
pub open spec fn seed_start(width: int, len: int, align: PaddingAlign) -> int {
    match align {
        PaddingAlign::Before => width - len,
        PaddingAlign::After => 0,
        PaddingAlign::Center => (width - len) / 2,
    }
}

/// Cell `i` of the initial row built from `seed`: inside the seed window,
/// `1` where the seed byte is nonzero and `0` elsewhere; outside it, the low
/// bit of `fill`.
pub open spec fn initial_cell(width: int, seed: Seq<u8>, align: PaddingAlign, fill: u8, i: int) -> u8 {
    let len = seed_fit(width, seed.len() as int);
    let start = seed_start(width, len, align);
    if start <= i < start + len {
        if seed[i - start] != 0 { 1 } else { 0 }
    } else {
        fill % 2
    }
}

/// The initial row of `width` cells built from `seed`.
pub open spec fn initial_row(width: nat, seed: Seq<u8>, align: PaddingAlign, fill: u8) -> Seq<u8> {
    Seq::new(width, |i: int| initial_cell(width as int, seed, align, fill, i))
}

/// Where a seed goes: `After` puts it at the left edge, `Before` at the
/// right edge, `Center` at `(width - len) / 2`, where `len` is the number of
/// seed cells that fit. Every cell outside that window holds the low bit of
/// the fill, whatever the alignment; inside it, a seed byte gives `1` when
/// nonzero and `0` otherwise.
pub open spec fn padded_seed_layout(r: Seq<u8>, width: nat, seed: Seq<u8>, align: PaddingAlign, fill: u8) -> bool {
    let len: int = if seed.len() < width { seed.len() as int } else { width as int };
    let start: int = match align {
        PaddingAlign::After => 0,
        PaddingAlign::Before => width - len,
        PaddingAlign::Center => (width - len) / 2,
    };
    &&& r.len() == width
    &&& 0 <= start && start + len <= width
    &&& forall|i: int| 0 <= i < width && !(start <= i < start + len) ==> #[trigger] r[i] == fill % 2
    &&& forall|i: int| start <= i < start + len ==> #[trigger] r[i] == (if seed[i - start] == 0 { 0u8 } else { 1u8 })
}

/// The initial row is the seed in its window on a sea of the fill's low bit.
pub proof fn lemma_initial_row_layout(width: nat, seed: Seq<u8>, align: PaddingAlign, fill: u8)
    ensures
        padded_seed_layout(initial_row(width, seed, align, fill), width, seed, align, fill),
{
}

/// Build an initial row of length `width` from a short seed pattern, padded
/// with `fill` on whichever side(s) `align` dictates.
///
/// Every byte in the result is `0` or `1`. Bytes in `seed` other than `0` are
/// treated as `1`. If `seed.len() > width` the trailing seed bytes are
/// dropped.
pub fn make_initial_row(width: usize, seed: &[u8], align: PaddingAlign, fill: u8) -> (r: Vec<u8>)
    ensures
        r@ == initial_row(width as nat, seed@, align, fill),
        padded_seed_layout(r@, width as nat, seed@, align, fill),
        is_binary(r@),
{
    proof {
        lemma_initial_row_layout(width as nat, seed@, align, fill);
    }
    let low = fill & 1;
    assert(low == fill % 2) by (bit_vector)
        requires low == fill & 1;
    let mut row = vec![low; width];
    let ghost target = initial_row(width as nat, seed@, align, fill);
    if width == 0 || seed.len() == 0 {
        assert(row@ =~= target);
        return row;
    }
    let len = if seed.len() < width { seed.len() } else { width };
    let start = match align {
        PaddingAlign::Before => width - len,
        PaddingAlign::After => 0,
        PaddingAlign::Center => (width - len) / 2,
    };
    assert(start == seed_start(width as int, len as int, align));
    for i in 0..len
        invariant
            row@.len() == width,
            len == seed_fit(width as int, seed@.len() as int),
            len <= seed@.len(),
            start == seed_start(width as int, len as int, align),
            start + len <= width,
            low == fill % 2,
            target == initial_row(width as nat, seed@, align, fill),
            forall|j: int| 0 <= j < width && !(start <= j < start + i) ==> #[trigger] row@[j] == low,
            forall|j: int| start <= j < start + i ==> #[trigger] row@[j] == target[j],
    {
        row[start + i] = if seed[i] != 0 { 1 } else { 0 };
    }
    assert(row@ =~= target);
    row
}

/// Reasons [`check_explicit_row`] rejects an initial row.
#[derive(Debug, Clone, Copy, PartialEq, Eq)]
pub enum ExplicitRowError {
    LengthMismatch { expected: usize, got: usize },
    NonBinary { position: usize, value: u8 },
}

/// Validate that `row` is a legal explicit initial row for a configuration
/// of the given `width`.
///
/// Fails with `LengthMismatch` if `row.len() != width`; otherwise with
/// `NonBinary` at the first cell that is not `0` or `1`.
pub fn check_explicit_row(width: usize, row: &[u8]) -> (r: Result<(), ExplicitRowError>)
    ensures
        row@.len() != width ==> r == Err::<(), ExplicitRowError>(
            ExplicitRowError::LengthMismatch { expected: width, got: row@.len() as usize },
        ),
        row@.len() == width && is_binary(row@) ==> r is Ok,
        row@.len() == width && !is_binary(row@) ==> (r matches Err(ExplicitRowError::NonBinary { position, value }) && {
            &&& position < row@.len()
            &&& value == row@[position as int]
            &&& value > 1
            &&& forall|j: int| 0 <= j < position ==> #[trigger] row@[j] <= 1
        }),
{
    if row.len() != width {
        return Err(ExplicitRowError::LengthMismatch { expected: width, got: row.len() });
    }
    for i in 0..row.len()
        invariant
            row@.len() == width,
            forall|j: int| 0 <= j < i ==> #[trigger] row@[j] <= 1,
    {
        let v = row[i];
        if v > 1 {
            return Err(ExplicitRowError::NonBinary { position: i, value: v });
        }
    }
    Ok(())
}

/// An owning simulation runner: holds the inputs, owns the result, and
/// exposes a `.rows()` view.
#[derive(Debug, Clone)]
pub struct CellularAutomaton {
    pub rule: Rule,
    pub width: usize,
    pub generations: usize,
    pub initial: Vec<u8>,
    pub boundary: BoundaryMode,
    rows: Vec<Vec<u8>>,
}

/// What a [`CellularAutomaton`] holds, as mathematical values.
pub struct AutomatonView {
    pub number: u8,
    pub width: nat,
    pub generations: nat,
    pub initial: Seq<u8>,
    pub boundary: BoundaryMode,
    pub rows: Seq<Seq<u8>>,
}

/// The rows a completed run holds: none for width 0, otherwise rows `0` to
/// `generations` of the simulation that starts from `initial`.
pub open spec fn simulated_rows(table: Seq<u8>, width: nat, generations: nat, initial: Seq<u8>, boundary: BoundaryMode) -> Seq<Seq<u8>> {
    if width == 0 {
        Seq::empty()
    } else {
        Seq::new(generations + 1, |k: int| generation(table, initial, boundary, k as nat))
    }
}

impl View for CellularAutomaton {
    type V = AutomatonView;

    closed spec fn view(&self) -> AutomatonView {
        AutomatonView {
            number: self.rule.rule_number(),
            width: self.width as nat,
            generations: self.generations as nat,
            initial: self.initial@,
            boundary: self.boundary,
            rows: self.rows@.map_values(|r: Vec<u8>| r@),
        }
    }
}

impl CellularAutomaton {
    /// Build a runner; it holds no rows until [`run`](Self::run) is called.
    pub fn new(rule: Rule, width: usize, generations: usize, initial: Vec<u8>, boundary: BoundaryMode) -> (r: Self)
        ensures
            r@.number == rule.rule_number(),
            r@.width == width,
            r@.generations == generations,
            r@.initial == initial@,
            r@.boundary == boundary,
            r@.rows == Seq::<Seq<u8>>::empty(),
    {
        let r = CellularAutomaton { rule, width, generations, initial, boundary, rows: Vec::new() };
        assert(r@.rows =~= Seq::<Seq<u8>>::empty());
        r
    }

    /// Returns the simulated rows. Empty until [`run`](Self::run) has been
    /// called.
    pub fn rows(&self) -> (r: &[Vec<u8>])
        ensures
            r@.map_values(|v: Vec<u8>| v@) == self@.rows,
    {
        self.rows.as_slice()
    }

    /// Run the simulation to completion, filling the rows: row 0 is the
    /// initial row and each further row is the rule applied to the one
    /// before it (boundary fill `0`). A width of 0 gives no rows.
    pub fn run(&mut self)
        ensures
            final(self)@.number == old(self)@.number,
            final(self)@.width == old(self)@.width,
            final(self)@.generations == old(self)@.generations,
            final(self)@.initial == old(self)@.initial,
            final(self)@.boundary == old(self)@.boundary,
            final(self)@.rows == simulated_rows(
                rule_table(old(self)@.number),
                old(self)@.width,
                old(self)@.generations,
                old(self)@.initial,
                old(self)@.boundary,
            ),
            forall|k: int| 1 <= k < final(self)@.rows.len() ==> is_binary(#[trigger] final(self)@.rows[k]),
            old(self)@.width > 0 ==> final(self)@.rows.len() == old(self)@.generations + 1 && final(self)@.rows[0]
                == old(self)@.initial,
            forall|k: int| 0 <= k < final(self)@.rows.len() - 1 ==> #[trigger] final(self)@.rows[k + 1] == step(
                rule_table(old(self)@.number),
                final(self)@.rows[k],
                old(self)@.boundary,
                0,
            ),
    {
        let width = self.width;
        if width == 0 {
            self.rows = Vec::new();
            assert(self@.rows =~= Seq::<Seq<u8>>::empty());
            return;
        }
        let ghost table = rule_table(self.rule.rule_number());
        let row0 = self.initial.clone();
        assert(row0@ =~= self.initial@);
        let mut rows: Vec<Vec<u8>> = Vec::new();
        rows.push(row0);
        let generations = self.generations;
        for g in 0..generations
            invariant
                rule_table(self.rule.rule_number()) == table,
                rows@.len() == g + 1,
                forall|k: int| 0 <= k <= g ==> #[trigger] rows@[k]@ == generation(table, self.initial@, self.boundary, k as nat),
        {
            let next = step_row(&self.rule, rows[g].as_slice(), self.boundary, 0);
            rows.push(next);
        }
        self.rows = rows;
        assert(self@.rows =~= simulated_rows(table, width as nat, generations as nat, self.initial@, self.boundary));
        proof {
            lemma_rule_table_binary(self.rule.rule_number());
            assert forall|k: int| 1 <= k < self@.rows.len() implies is_binary(#[trigger] self@.rows[k]) by {
                lemma_generation_shape(table, self.initial@, self.boundary, k as nat);
            }
        }
    }
}

/// A completed run holds `generations + 1` rows (none for width 0), each
/// as wide as the initial row.
pub proof fn lemma_run_rows_shape(table: Seq<u8>, width: nat, generations: nat, initial: Seq<u8>, boundary: BoundaryMode)
    ensures
        ({
            let rows = simulated_rows(table, width, generations, initial, boundary);
            &&& rows.len() == (if width == 0 { 0 } else { generations + 1 })
            &&& forall|k: int| 0 <= k < rows.len() ==> (#[trigger] rows[k]).len() == initial.len()
        }),
{
    let rows = simulated_rows(table, width, generations, initial, boundary);
    assert forall|k: int| 0 <= k < rows.len() implies (#[trigger] rows[k]).len() == initial.len() by {
        lemma_generation_shape(table, initial, boundary, k as nat);
    }
}

} // verus!
