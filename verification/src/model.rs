//! The grid engine: a toroidal cell buffer and its generation step.

use crate::cell::Cell;
use crate::rule::ConstructionError;
use crate::rule::Rule;
use vstd::arithmetic::div_mod::lemma_fundamental_div_mod;
use vstd::arithmetic::div_mod::lemma_fundamental_div_mod_converse;
use vstd::prelude::*;

verus! {

/// Row-major linear index of the cell in column `x` of row `y`.
pub open spec fn linear_index(w: nat, x: nat, y: nat) -> nat {
    y * w + x
}

/// The coordinate one step before `v` on a ring of size `n`,
/// wrapping from 0 to `n - 1`.
pub open spec fn wrap_dec(v: nat, n: nat) -> nat {
    if v == 0 {
        (n - 1) as nat
    } else {
        (v - 1) as nat
    }
}

/// The coordinate one step after `v` on a ring of size `n`,
/// wrapping from `n - 1` to 0.
pub open spec fn wrap_inc(v: nat, n: nat) -> nat {
    if v + 1 == n {
        0
    } else {
        v + 1
    }
}

/// Numeric weight (0 or 1) of the cell in column `x` of row `y`.
pub open spec fn weight_at(s: Seq<Cell>, w: nat, x: nat, y: nat) -> nat {
    s[linear_index(w, x, y) as int].spec_num()
}

/// Sum of the cell weights over the whole 3x3 block centred on `(x, y)`,
/// with both offsets wrapped. On a ring of size 1 or 2 the wrapped
/// offsets coincide, so a cell reached along several offsets is summed
/// once per offset.
pub open spec fn block_sum(s: Seq<Cell>, w: nat, h: nat, x: nat, y: nat) -> nat {
    let xl = wrap_dec(x, w);
    let xr = wrap_inc(x, w);
    let yu = wrap_dec(y, h);
    let yd = wrap_inc(y, h);
    weight_at(s, w, xl, yu) + weight_at(s, w, x, yu) + weight_at(s, w, xr, yu) + weight_at(
        s,
        w,
        xl,
        y,
    ) + weight_at(s, w, x, y) + weight_at(s, w, xr, y) + weight_at(s, w, xl, yd) + weight_at(
        s,
        w,
        x,
        yd,
    ) + weight_at(s, w, xr, yd)
}

/// Live-neighbour count of the cell at `(x, y)`: the 3x3 block sum with
/// one occurrence of the centre cell taken back out.
pub open spec fn neighbour_count_at(s: Seq<Cell>, w: nat, h: nat, x: nat, y: nat) -> nat {
    (block_sum(s, w, h, x, y) - weight_at(s, w, x, y)) as nat
}

/// Live-neighbour count of the cell at linear index `i`.
pub open spec fn neighbour_count(s: Seq<Cell>, w: nat, h: nat, i: nat) -> nat {
    neighbour_count_at(s, w, h, i % w, i / w)
}

/// The whole next generation: every cell's transition is decided against
/// the same frozen buffer `s`.
pub open spec fn next_world(s: Seq<Cell>, w: nat, h: nat, r: Rule) -> Seq<Cell> {
    Seq::new(s.len(), |i: int| r.next_cell(s[i], neighbour_count(s, w, h, i as nat)))
}

/// The signed, 1-based record for a state change of the cell at linear
/// index `i`: `i + 1` when the cell becomes alive, `-(i + 1)` when it dies.
pub open spec fn change_record(i: nat, becomes_alive: bool) -> i32 {
    if becomes_alive {
        (i + 1) as i32
    } else {
        (-(i as int + 1)) as i32
    }
}

/// The 0-based cell index a signed change record refers to.
pub open spec fn record_index(v: i32) -> int {
    if v > 0 {
        v - 1
    } else {
        -v - 1
    }
}

/// The change records for the cells at linear indices below `k`, in
/// ascending index order.
pub open spec fn changes_upto(s: Seq<Cell>, w: nat, h: nat, r: Rule, k: nat) -> Seq<i32>
    decreases k,
{
    if k == 0 {
        Seq::empty()
    } else {
        let i = (k - 1) as nat;
        let prev = changes_upto(s, w, h, r, i);
        let c = s[i as int];
        let nc = r.next_cell(c, neighbour_count(s, w, h, i));
        if c is Alive && nc is Dead {
            prev.push(change_record(i, false))
        } else if c is Dead && nc is Alive {
            prev.push(change_record(i, true))
        } else {
            prev
        }
    }
}

/// The full change list of one generation step.
pub open spec fn change_list(s: Seq<Cell>, w: nat, h: nat, r: Rule) -> Seq<i32> {
    changes_upto(s, w, h, r, s.len())
}

/// What it means for a record sequence `cs` to report exactly the cells
/// below index `k` whose state differs between buffer `s` and buffer `ns`:
/// every record points at a changed cell and its sign tells the new state,
/// every changed cell has a record, and records come in strictly ascending
/// index order, so no cell is reported twice.
pub open spec fn reports_changes_upto(s: Seq<Cell>, ns: Seq<Cell>, cs: Seq<i32>, k: int) -> bool {
    &&& forall|j: int| #![trigger cs[j]] 0 <= j < cs.len() ==> 0 <= record_index(cs[j]) < k
    &&& forall|j: int|
        #![trigger cs[j]]
        0 <= j < cs.len() ==> s[record_index(cs[j])] != ns[record_index(cs[j])]
    &&& forall|j: int|
        #![trigger cs[j]]
        0 <= j < cs.len() ==> (cs[j] > 0 <==> ns[record_index(cs[j])] is Alive)
    &&& forall|i: int|
        #![trigger s[i], ns[i]]
        0 <= i < k && s[i] != ns[i] ==> exists|j: int|
            0 <= j < cs.len() && #[trigger] record_index(cs[j]) == i
    &&& forall|j1: int, j2: int|
        #![trigger cs[j1], cs[j2]]
        0 <= j1 < j2 < cs.len() ==> record_index(cs[j1]) < record_index(cs[j2])
}

/// The buffer after `n` generation steps.
pub open spec fn advance_n(s: Seq<Cell>, w: nat, h: nat, r: Rule, n: nat) -> Seq<Cell>
    decreases n,
{
    if n == 0 {
        s
    } else {
        next_world(advance_n(s, w, h, r, (n - 1) as nat), w, h, r)
    }
}

proof fn lemma_mul_le(a: nat, b: nat, c: nat, d: nat)
    by (nonlinear_arith)
    requires
        a <= c,
        b <= d,
    ensures
        a * b <= c * d,
{
}

proof fn lemma_mul_succ(a: nat, b: nat)
    by (nonlinear_arith)
    ensures
        (a + 1) * b == a * b + b,
{
}

proof fn lemma_index_bound(w: nat, h: nat, x: nat, y: nat)
    by (nonlinear_arith)
    requires
        x < w,
        y < h,
    ensures
        y * w + x < w * h,
{
}

/// Column and row are recovered from a linear index by `% w` and `/ w`.
proof fn lemma_linear_index_inverse(w: nat, x: nat, y: nat)
    requires
        1 <= w,
        x < w,
    ensures
        linear_index(w, x, y) % w == x,
        linear_index(w, x, y) / w == y,
{
    lemma_fundamental_div_mod_converse(linear_index(w, x, y) as int, w as int, y as int, x as int);
}

/// A linear index below `w * h` decomposes into a column below `w` and a
/// row below `h`.
proof fn lemma_linear_decompose(w: nat, h: nat, i: nat)
    requires
        1 <= w,
        1 <= h,
        i < w * h,
    ensures
        i % w < w,
        i / w < h,
        linear_index(w, i % w, i / w) == i,
{
    lemma_fundamental_div_mod(i as int, w as int);
    assert((i / w) * w == w * (i / w)) by (nonlinear_arith);
    if i / w >= h {
        lemma_mul_le(w, h, w, i / w);
    }
}

/// A rectangular toroidal grid of cells, mutated in place one whole
/// generation at a time.
pub struct Model {
    world: Vec<Cell>,
    width: u32,
    height: u32,
    last_update_count: u32,
    rule: Rule,
}

impl View for Model {
    type V = Seq<Cell>;

    closed spec fn view(&self) -> Seq<Cell> {
        self.world@
    }
}

impl Model {
    /// The grid width, as a specification value.
    pub closed spec fn spec_width(&self) -> u32 {
        self.width
    }

    /// The grid height, as a specification value.
    pub closed spec fn spec_height(&self) -> u32 {
        self.height
    }

    /// The rule this grid advances under.
    pub closed spec fn spec_rule(&self) -> Rule {
        self.rule
    }

    /// How many cells changed state in the last reported generation step.
    pub closed spec fn spec_last_update_count(&self) -> u32 {
        self.last_update_count
    }

    /// Well-formedness: positive dimensions, a valid rule, and a buffer of
    /// exactly `width * height` cells.
    pub open spec fn wf(&self) -> bool {
        &&& 1 <= self.spec_width()
        &&& 1 <= self.spec_height()
        &&& self@.len() == (self.spec_width() as nat) * (self.spec_height() as nat)
        &&& self.spec_rule().wf()
    }

    /// Builds a grid from explicit dimensions, a rule, and an initial cell
    /// buffer, validating all three.
    pub fn new(width: u32, height: u32, rule: Rule, cells: Vec<Cell>) -> (r: Result<
        Model,
        ConstructionError,
    >)
        ensures
            match r {
                Ok(m) => {
                    &&& 1 <= width && 1 <= height && rule.wf()
                    &&& cells@.len() == (width as nat) * (height as nat)
                    &&& m.wf()
                    &&& m.spec_width() == width
                    &&& m.spec_height() == height
                    &&& m@ == cells@
                    &&& m.spec_rule() == rule
                    &&& m.spec_last_update_count() == 0
                },
                Err(ConstructionError::ZeroDimension) => width == 0 || height == 0,
                Err(ConstructionError::InvalidRule) => 1 <= width && 1 <= height && !rule.wf(),
                Err(ConstructionError::CellCountMismatch) => {
                    &&& 1 <= width && 1 <= height && rule.wf()
                    &&& cells@.len() != (width as nat) * (height as nat)
                },
            },
    {
        if width == 0 || height == 0 {
            return Err(ConstructionError::ZeroDimension);
        }
        if !rule.is_well_formed() {
            return Err(ConstructionError::InvalidRule);
        }
        proof {
            lemma_mul_le(width as nat, height as nat, u32::MAX as nat, u32::MAX as nat);
        }
        let expected: u64 = (width as u64) * (height as u64);
        if cells.len() as u64 != expected {
            return Err(ConstructionError::CellCountMismatch);
        }
        Ok(Model { world: cells, width, height, last_update_count: 0, rule })
    }

    /// The grid width.
    pub fn w(&self) -> (r: u32)
        ensures
            r == self.spec_width(),
    {
        self.width
    }

    /// The grid height.
    pub fn h(&self) -> (r: u32)
        ensures
            r == self.spec_height(),
    {
        self.height
    }

    /// Read-only view of the current cell buffer, row-major.
    pub fn world(&self) -> (cells: &Vec<Cell>)
        ensures
            cells@ == self@,
    {
        &self.world
    }

    /// How many cells changed state during the last `update_and_report`.
    pub fn tell_last_update_count(&self) -> (c: u32)
        ensures
            c == self.spec_last_update_count(),
    {
        self.last_update_count
    }

    /// The cell in column `x` of row `y`.
    pub fn at(&self, x: u32, y: u32) -> (c: Cell)
        requires
            self.wf(),
            x < self.spec_width(),
            y < self.spec_height(),
        ensures
            c == self@[linear_index(self.spec_width() as nat, x as nat, y as nat) as int],
    {
        proof {
            lemma_index_bound(self.width as nat, self.height as nat, x as nat, y as nat);
            lemma_mul_le(y as nat, self.width as nat, u32::MAX as nat, u32::MAX as nat);
        }
        let n: usize = self.world.len();
        let i: u64 = (y as u64) * (self.width as u64) + (x as u64);
        assert(i < n as u64);
        self.world[i as usize]
    }

    /// Live-neighbour count of the cell in column `x` of row `y`.
    #[verifier::rlimit(60)]
    fn neighbours_at(&self, x: u32, y: u32) -> (n: u8)
        requires
            self.wf(),
            x < self.spec_width(),
            y < self.spec_height(),
        ensures
            n == neighbour_count_at(
                self@,
                self.spec_width() as nat,
                self.spec_height() as nat,
                x as nat,
                y as nat,
            ),
            n <= 8,
    {
        let w = self.width;
        let h = self.height;
        let xl = if x == 0 { w - 1 } else { x - 1 };
        let xr = if x + 1 == w { 0 } else { x + 1 };
        let yu = if y == 0 { h - 1 } else { y - 1 };
        let yd = if y + 1 == h { 0 } else { y + 1 };
        assert(xl == wrap_dec(x as nat, w as nat) && xr == wrap_inc(x as nat, w as nat));
        assert(yu == wrap_dec(y as nat, h as nat) && yd == wrap_inc(y as nat, h as nat));
        assert(xl < w && xr < w && yu < h && yd < h);
        let mut n: u8 = 0;
        n += self.at(xl, yu).as_num();
        n += self.at(x, yu).as_num();
        n += self.at(xr, yu).as_num();
        n += self.at(xl, y).as_num();
        n += self.at(x, y).as_num();
        n += self.at(xr, y).as_num();
        n += self.at(xl, yd).as_num();
        n += self.at(x, yd).as_num();
        n += self.at(xr, yd).as_num();
        n -= self.at(x, y).as_num();
        n
    }

    /// Live-neighbour count of the cell at linear index `loc`: the sum of
    /// the eight wrapped neighbour slots of the 3x3 block around the cell,
    /// the cell itself excluded, always in `0 ..= 8`. On a torus fewer
    /// than 3 wide or high, several slots fold onto the same cell and it
    /// is counted once per slot.
    pub fn neighbours_of(&self, loc: u32) -> (n: u8)
        requires
            self.wf(),
            (loc as nat) < (self.spec_width() as nat) * (self.spec_height() as nat),
        ensures
            n == neighbour_count(
                self@,
                self.spec_width() as nat,
                self.spec_height() as nat,
                loc as nat,
            ),
            n <= 8,
    {
        proof {
            lemma_linear_decompose(self.width as nat, self.height as nat, loc as nat);
        }
        let x = loc % self.width;
        let y = loc / self.width;
        self.neighbours_at(x, y)
    }

    /// Computes the whole next generation against the current buffer as a
    /// frozen snapshot, without touching the grid.
    fn next_generation(&self) -> (next: Vec<Cell>)
        requires
            self.wf(),
        ensures
            next@ == next_world(
                self@,
                self.spec_width() as nat,
                self.spec_height() as nat,
                self.spec_rule(),
            ),
    {
        let w = self.width;
        let h = self.height;
        let rule = self.rule;
        let len = self.world.len();
        let ghost s = self@;
        let ghost nw = next_world(s, w as nat, h as nat, rule);
        let mut next: Vec<Cell> = Vec::new();
        let mut x: u32 = 0;
        let mut y: u32 = 0;
        let mut i: usize = 0;
        while i < len
            invariant
                self.wf(),
                w == self.spec_width(),
                h == self.spec_height(),
                rule == self.spec_rule(),
                s == self@,
                nw == next_world(s, w as nat, h as nat, rule),
                len == s.len(),
                x < w,
                y <= h,
                i == (y as nat) * (w as nat) + (x as nat),
                i <= len,
                next@.len() == i,
                forall|k: int| 0 <= k < i ==> next@[k] == nw[k],
            decreases len - i,
        {
            proof {
                if y >= h {
                    lemma_mul_le(h as nat, w as nat, y as nat, w as nat);
                }
                lemma_linear_index_inverse(w as nat, x as nat, y as nat);
            }
            let nb = self.neighbours_at(x, y);
            let c = self.world[i];
            let v = rule.apply(c, nb);
            next.push(v);
            i = i + 1;
            if x + 1 == w {
                proof {
                    lemma_mul_succ(y as nat, w as nat);
                }
                x = 0;
                y = y + 1;
            } else {
                x = x + 1;
            }
        }
        proof {
            assert(next@ =~= nw);
        }
        next
    }

    /// Advances the grid by one generation in place. The dimensions, the
    /// rule and the change count of the last reported step are untouched;
    /// the buffer becomes exactly the next generation of the old buffer.
    pub fn update_self(&mut self)
        requires
            old(self).wf(),
        ensures
            final(self).wf(),
            final(self).spec_width() == old(self).spec_width(),
            final(self).spec_height() == old(self).spec_height(),
            final(self).spec_rule() == old(self).spec_rule(),
            final(self).spec_last_update_count() == old(self).spec_last_update_count(),
            final(self)@ == next_world(
                old(self)@,
                old(self).spec_width() as nat,
                old(self).spec_height() as nat,
                old(self).spec_rule(),
            ),
    {
        let next = self.next_generation();
        self.world = next;
    }

    /// Advances the grid by one generation in place, like `update_self`,
    /// and reports every cell that changed state: `i + 1` for the cell at
    /// index `i` coming alive, `-(i + 1)` for it dying, in ascending index
    /// order. The reported count of changed cells equals the list length.
    /// The 1-based records are `i32`, so the buffer may hold at most
    /// `i32::MAX` cells.
    pub fn update_and_report(&mut self) -> (updates: Vec<i32>)
        requires
            old(self).wf(),
            old(self)@.len() <= i32::MAX,
        ensures
            final(self).wf(),
            final(self).spec_width() == old(self).spec_width(),
            final(self).spec_height() == old(self).spec_height(),
            final(self).spec_rule() == old(self).spec_rule(),
            final(self)@ == next_world(
                old(self)@,
                old(self).spec_width() as nat,
                old(self).spec_height() as nat,
                old(self).spec_rule(),
            ),
            updates@ == change_list(
                old(self)@,
                old(self).spec_width() as nat,
                old(self).spec_height() as nat,
                old(self).spec_rule(),
            ),
            final(self).spec_last_update_count() == updates@.len(),
            reports_changes_upto(old(self)@, final(self)@, updates@, old(self)@.len() as int),
    {
        let ghost s = self@;
        let ghost w = self.spec_width() as nat;
        let ghost h = self.spec_height() as nat;
        let ghost r = self.spec_rule();
        let next = self.next_generation();
        let len = self.world.len();
        let mut updates: Vec<i32> = Vec::new();
        let mut i: usize = 0;
        while i < len
            invariant
                self.wf(),
                s == self@,
                w == self.spec_width() as nat,
                h == self.spec_height() as nat,
                r == self.spec_rule(),
                len == s.len(),
                len <= i32::MAX,
                next@ == next_world(s, w, h, r),
                i <= len,
                updates@ == changes_upto(s, w, h, r, i as nat),
                updates@.len() <= i,
            decreases len - i,
        {
            let c = self.world[i];
            let v = next[i];
            let ip1: usize = i + 1;
            assert(ip1 <= i32::MAX);
            let rec: i32 = ip1 as i32;
            if c.is_alive() && !v.is_alive() {
                updates.push(-rec);
            } else if !c.is_alive() && v.is_alive() {
                updates.push(rec);
            }
            proof {
                assert(next_world(s, w, h, r)[i as int] == r.next_cell(
                    s[i as int],
                    neighbour_count(s, w, h, i as nat),
                ));
                assert(change_record(i as nat, true) == rec);
                assert(change_record(i as nat, false) == -rec);
                assert(updates@ == changes_upto(s, w, h, r, (i + 1) as nat));
            }
            i = ip1;
        }
        let count = updates.len() as u32;
        self.world = next;
        self.last_update_count = count;
        proof {
            lemma_changes_upto_exact(s, w, h, r, s.len());
        }
        updates
    }
}

/// The change list of one generation step reports exactly the cells whose
/// state differs between the old and the new buffer — no omission, no
/// duplicate — in ascending index order, each record's sign giving the
/// cell's new state.
pub proof fn lemma_change_list_exact(s: Seq<Cell>, w: nat, h: nat, r: Rule)
    requires
        s.len() <= i32::MAX,
    ensures
        reports_changes_upto(s, next_world(s, w, h, r), change_list(s, w, h, r), s.len() as int),
{
    lemma_changes_upto_exact(s, w, h, r, s.len());
}

/// Size invariance: stepping any number of generations never changes the
/// length of the cell buffer.
pub proof fn lemma_advance_n_len(s: Seq<Cell>, w: nat, h: nat, r: Rule, n: nat)
    ensures
        advance_n(s, w, h, r, n).len() == s.len(),
    decreases n,
{
    if n > 0 {
        lemma_advance_n_len(s, w, h, r, (n - 1) as nat);
    }
}

/// Determinism: the generation step is a function of the rule, the
/// dimensions and the current buffer alone, so identical starting states
/// stay identical for any number of generations.
pub proof fn lemma_advance_deterministic(
    s1: Seq<Cell>,
    s2: Seq<Cell>,
    w: nat,
    h: nat,
    r: Rule,
    n: nat,
)
    requires
        s1 == s2,
    ensures
        advance_n(s1, w, h, r, n) == advance_n(s2, w, h, r, n),
{
}

/// Under the standard rule, a lone live cell dies and breeds nothing: one
/// generation later the whole grid is dead. Both dimensions must be at
/// least 2: on a single-row or single-column torus the wrapped 3x3 block
/// folds onto the cell's own row or column, which can keep the cell alive
/// or breed new ones.
pub proof fn lemma_lone_cell_dies(s: Seq<Cell>, w: nat, h: nat, a: int)
    requires
        2 <= w,
        2 <= h,
        s.len() == w * h,
        0 <= a < s.len(),
        forall|i: int| 0 <= i < s.len() ==> ((#[trigger] s[i]) is Alive <==> i == a),
    ensures
        forall|i: int|
            0 <= i < s.len() ==> (#[trigger] next_world(s, w, h, Rule::spec_standard())[i])
                is Dead,
{
    let ns = next_world(s, w, h, Rule::spec_standard());
    assert forall|i: int| 0 <= i < s.len() implies (#[trigger] ns[i]) is Dead by {
        lemma_linear_decompose(w, h, i as nat);
        let x = (i as nat) % w;
        let y = (i as nat) / w;
        lemma_lone_cell_count(s, w, h, a, x, y);
        assert(ns[i] == Rule::spec_standard().next_cell(s[i], neighbour_count(s, w, h, i as nat)));
    }
}

/// Neighbour counts around a lone live cell, on a torus at least 2 wide
/// and 2 high: the live cell itself sees no live neighbour, and no other
/// cell sees exactly 3. A dead cell sees the lone live cell once per
/// wrapped offset pair that reaches it, which is 1, 2 or 4 times — never 3.
proof fn lemma_lone_cell_count(s: Seq<Cell>, w: nat, h: nat, a: int, x: nat, y: nat)
    requires
        2 <= w,
        2 <= h,
        s.len() == w * h,
        0 <= a < s.len(),
        forall|i: int| 0 <= i < s.len() ==> ((#[trigger] s[i]) is Alive <==> i == a),
        x < w,
        y < h,
    ensures
        linear_index(w, x, y) == a ==> neighbour_count_at(s, w, h, x, y) == 0,
        linear_index(w, x, y) != a ==> neighbour_count_at(s, w, h, x, y) != 3,
{
    lemma_linear_decompose(w, h, a as nat);
    let xl = wrap_dec(x, w);
    let xr = wrap_inc(x, w);
    let yu = wrap_dec(y, h);
    let yd = wrap_inc(y, h);
    assert(xl < w && xr < w && yu < h && yd < h);
    assert(xl != x && xr != x && yu != y && yd != y);
    lemma_index_bound(w, h, xl, yu);
    lemma_index_bound(w, h, x, yu);
    lemma_index_bound(w, h, xr, yu);
    lemma_index_bound(w, h, xl, y);
    lemma_index_bound(w, h, x, y);
    lemma_index_bound(w, h, xr, y);
    lemma_index_bound(w, h, xl, yd);
    lemma_index_bound(w, h, x, yd);
    lemma_index_bound(w, h, xr, yd);
    lemma_linear_index_inverse(w, xl, yu);
    lemma_linear_index_inverse(w, x, yu);
    lemma_linear_index_inverse(w, xr, yu);
    lemma_linear_index_inverse(w, xl, y);
    lemma_linear_index_inverse(w, x, y);
    lemma_linear_index_inverse(w, xr, y);
    lemma_linear_index_inverse(w, xl, yd);
    lemma_linear_index_inverse(w, x, yd);
    lemma_linear_index_inverse(w, xr, yd);
}

/// Whether `(x, y)` lies in the 2x2 block whose top-left corner is
/// `(bx, by)`, the block's far column and row wrapped around the torus.
pub open spec fn in_block(w: nat, h: nat, bx: nat, by: nat, x: nat, y: nat) -> bool {
    (x == bx || x == wrap_inc(bx, w)) && (y == by || y == wrap_inc(by, h))
}

/// Standard-rule still life: a grid whose live cells form exactly one 2x2
/// block keeps that exact state over a generation step. Both dimensions
/// must be at least 3, so that the block has dead padding on all sides;
/// the block itself may straddle the wrap-around edges.
pub proof fn lemma_block_still_life(s: Seq<Cell>, w: nat, h: nat, bx: nat, by: nat)
    requires
        3 <= w,
        3 <= h,
        s.len() == w * h,
        bx < w,
        by < h,
        forall|i: int|
            0 <= i < s.len() ==> ((#[trigger] s[i]) is Alive <==> in_block(
                w,
                h,
                bx,
                by,
                (i as nat) % w,
                (i as nat) / w,
            )),
    ensures
        next_world(s, w, h, Rule::spec_standard()) == s,
{
    let ns = next_world(s, w, h, Rule::spec_standard());
    assert forall|i: int| 0 <= i < s.len() implies ns[i] == s[i] by {
        lemma_linear_decompose(w, h, i as nat);
        lemma_block_count(s, w, h, bx, by, (i as nat) % w, (i as nat) / w);
        assert(ns[i] == Rule::spec_standard().next_cell(s[i], neighbour_count(s, w, h, i as nat)));
    }
    assert(ns =~= s);
}

/// Neighbour counts around a lone 2x2 block, on a torus at least 3 wide
/// and 3 high: every block cell sees exactly its 3 block mates, and no
/// other cell sees exactly 3 — a dead cell sees the block 0, 1, 2 or 4
/// times, since at most 2 of its 3 wrapped column offsets and at most 2
/// of its 3 wrapped row offsets can land in the block.
proof fn lemma_block_count(s: Seq<Cell>, w: nat, h: nat, bx: nat, by: nat, x: nat, y: nat)
    requires
        3 <= w,
        3 <= h,
        s.len() == w * h,
        bx < w,
        by < h,
        forall|i: int|
            0 <= i < s.len() ==> ((#[trigger] s[i]) is Alive <==> in_block(
                w,
                h,
                bx,
                by,
                (i as nat) % w,
                (i as nat) / w,
            )),
        x < w,
        y < h,
    ensures
        in_block(w, h, bx, by, x, y) ==> neighbour_count_at(s, w, h, x, y) == 3,
        !in_block(w, h, bx, by, x, y) ==> neighbour_count_at(s, w, h, x, y) != 3,
{
    let xl = wrap_dec(x, w);
    let xr = wrap_inc(x, w);
    let yu = wrap_dec(y, h);
    let yd = wrap_inc(y, h);
    assert(xl < w && xr < w && yu < h && yd < h);
    assert(xl != x && xr != x && xl != xr);
    assert(yu != y && yd != y && yu != yd);
    assert(wrap_inc(bx, w) != bx && wrap_inc(bx, w) < w);
    assert(wrap_inc(by, h) != by && wrap_inc(by, h) < h);
    lemma_index_bound(w, h, xl, yu);
    lemma_index_bound(w, h, x, yu);
    lemma_index_bound(w, h, xr, yu);
    lemma_index_bound(w, h, xl, y);
    lemma_index_bound(w, h, x, y);
    lemma_index_bound(w, h, xr, y);
    lemma_index_bound(w, h, xl, yd);
    lemma_index_bound(w, h, x, yd);
    lemma_index_bound(w, h, xr, yd);
    lemma_linear_index_inverse(w, xl, yu);
    lemma_linear_index_inverse(w, x, yu);
    lemma_linear_index_inverse(w, xr, yu);
    lemma_linear_index_inverse(w, xl, y);
    lemma_linear_index_inverse(w, x, y);
    lemma_linear_index_inverse(w, xr, y);
    lemma_linear_index_inverse(w, xl, yd);
    lemma_linear_index_inverse(w, x, yd);
    lemma_linear_index_inverse(w, xr, yd);
}

proof fn lemma_changes_upto_exact(s: Seq<Cell>, w: nat, h: nat, r: Rule, k: nat)
    requires
        k <= s.len(),
        s.len() <= i32::MAX,
    ensures
        changes_upto(s, w, h, r, k).len() <= k,
        reports_changes_upto(s, next_world(s, w, h, r), changes_upto(s, w, h, r, k), k as int),
    decreases k,
{
    let ns = next_world(s, w, h, r);
    let cs = changes_upto(s, w, h, r, k);
    if k > 0 {
        let i = (k - 1) as nat;
        lemma_changes_upto_exact(s, w, h, r, i);
        let prev = changes_upto(s, w, h, r, i);
        let c = s[i as int];
        let nc = r.next_cell(c, neighbour_count(s, w, h, i));
        assert(ns[i as int] == nc);
        assert(record_index(change_record(i, true)) == i);
        assert(record_index(change_record(i, false)) == i);
        assert forall|m: int| 0 <= m < k && s[m] != ns[m] implies exists|j: int|
            0 <= j < cs.len() && #[trigger] record_index(cs[j]) == m by {
            if m == i {
                assert(cs[cs.len() - 1] == change_record(i, c is Dead));
                assert(record_index(cs[cs.len() - 1]) == m);
            } else {
                let j0 = choose|j: int|
                    0 <= j < prev.len() && #[trigger] record_index(prev[j]) == m;
                assert(cs[j0] == prev[j0]);
                assert(record_index(cs[j0]) == m);
            }
        }
    }
}

} // verus!
