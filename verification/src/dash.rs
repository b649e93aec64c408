//! The fading trail that a dash, or a vaporized obstacle, leaves on the board.

use vstd::prelude::*;
use crate::config::{
    DASH_EFFECT_CHANGE, DASH_ICONS_LEN, DASH_LENGTH, GameGrid, MAX_DURATION, dash_icon,
    dash_icon_spec, in_grid,
};
use crate::obstacle::grid_cell;
use std::collections::HashMap;
use vstd::std_specs::iter::IteratorSpec;

verus! {

broadcast use vstd::std_specs::hash::group_hash_axioms;

/// One cell of a trail: its fade stage and the time spent in that stage.
#[derive(Clone, Copy, Debug, PartialEq, Eq, Structural)]
pub struct DashEffect {
    /// Index of the icon shown, from `0` (newest) to `DASH_ICONS_LEN - 1`.
    pub state_idx: usize,
    /// Nanoseconds since the stage began.
    pub time_since_change: u128,
}

impl Default for DashEffect {
    fn default() -> (e: Self)
        ensures
            e == DashEffect::fresh(0),
    {
        DashEffect { state_idx: 0, time_since_change: 0 }
    }
}

impl DashEffect {
    /// A trail cell that has just entered stage `state_idx`.
    pub open spec fn fresh(state_idx: usize) -> DashEffect {
        DashEffect { state_idx, time_since_change: 0 }
    }

    /// The cell after `dt` more nanoseconds: it moves to the next stage once
    /// `DASH_EFFECT_CHANGE` has passed in the current one.
    pub open spec fn tick(self, dt: int) -> DashEffect {
        let t = self.time_since_change + dt;
        if t >= DASH_EFFECT_CHANGE {
            DashEffect {
                state_idx: (self.state_idx + 1) as usize,
                time_since_change: (t - DASH_EFFECT_CHANGE) as u128,
            }
        } else {
            DashEffect { state_idx: self.state_idx, time_since_change: t as u128 }
        }
    }
}

pub type Cell = (usize, usize);

/// Trail effects are kept in a hash map under one integer per cell: the
/// column in the high 64 bits, the row in the low 64 bits. Every pair of
/// `usize` gets a key of its own, on the board or off it.
pub const KEY_SHIFT: u128 = 18446744073709551616;

/// The key of cell `c`.
pub open spec fn cell_key(c: Cell) -> u128 {
    (c.0 as int * KEY_SHIFT + c.1 as int) as u128
}

/// The cell whose key is `k`.
pub open spec fn key_cell(k: u128) -> Cell {
    ((k as int / KEY_SHIFT as int) as usize, (k as int % KEY_SHIFT as int) as usize)
}

/// Whether `k` is the key of some cell.
pub open spec fn is_cell_key(k: u128) -> bool {
    &&& k as int / KEY_SHIFT as int <= usize::MAX
    &&& k as int % KEY_SHIFT as int <= usize::MAX
}

/// Cells and their keys correspond one to one.
pub proof fn lemma_cell_keys()
    ensures
        forall|c: Cell| #[trigger] key_cell(cell_key(c)) == c && is_cell_key(cell_key(c)),
        forall|k: u128| is_cell_key(k) ==> #[trigger] cell_key(key_cell(k)) == k,
{
    let d = KEY_SHIFT as int;
    assert forall|c: Cell| #[trigger] key_cell(cell_key(c)) == c && is_cell_key(cell_key(c)) by {
        let x = c.0 as int;
        let y = c.1 as int;
        assert(0 <= x * d + y <= u128::MAX) by (nonlinear_arith)
            requires
                0 <= x < d,
                0 <= y < d,
                d == 18446744073709551616int,
        ;
        vstd::arithmetic::div_mod::lemma_fundamental_div_mod_converse(x * d + y, d, x, y);
    }
    assert forall|k: u128| is_cell_key(k) implies #[trigger] cell_key(key_cell(k)) == k by {
        vstd::arithmetic::div_mod::lemma_fundamental_div_mod(k as int, d);
        assert(k as int == (k as int / d) * d + k as int % d) by (nonlinear_arith)
            requires
                k as int == d * (k as int / d) + (k as int % d),
        ;
    }
}

/// The key of cell `c`, computed.
fn key_of(c: Cell) -> (k: u128)
    ensures
        k == cell_key(c),
{
    let x = c.0 as u128;
    let y = c.1 as u128;
    assert(x * KEY_SHIFT + y <= u128::MAX) by (nonlinear_arith)
        requires
            x < KEY_SHIFT,
            y < KEY_SHIFT,
            KEY_SHIFT == 18446744073709551616u128,
    ;
    x * KEY_SHIFT + y
}

/// The cell whose key is `k`, computed.
fn cell_of(k: u128) -> (c: Cell)
    requires
        is_cell_key(k),
    ensures
        c == key_cell(k),
{
    ((k / KEY_SHIFT) as usize, (k % KEY_SHIFT) as usize)
}

/// Taking one more element of a sequence adds exactly that element.
pub proof fn lemma_take_grow<T>(s: Seq<T>, i: int)
    requires
        0 <= i < s.len(),
    ensures
        s.take(i + 1) == s.take(i).push(s[i]),
        forall|x: T| #[trigger] s.take(i + 1).contains(x) <==> s.take(i).contains(x) || x == s[i],
{
    let taken = s.take(i);
    let taken_next = s.take(i + 1);
    assert(taken_next =~= taken.push(s[i]));
    assert forall|x: T| #[trigger] taken_next.contains(x) <==> taken.contains(x) || x == s[i] by {
        if taken_next.contains(x) {
            let k = choose|k: int| 0 <= k < taken_next.len() && taken_next[k] == x;
            if k < i {
                assert(taken[k] == x);
            }
        }
        if taken.contains(x) {
            let k = choose|k: int| 0 <= k < taken.len() && taken[k] == x;
            assert(taken_next[k] == x);
        }
        if x == s[i] {
            assert(taken_next[i] == x);
        }
    }
}

/// The fade stage given to the `i`-th cell of a dash trail, the trail being
/// listed from the player's new position backwards. The stages are handed
/// out in equal runs; cells left over take the last stage.
pub open spec fn trail_stage(i: int) -> usize {
    let give_times = (DASH_LENGTH / DASH_ICONS_LEN) as int;
    if give_times == 0 {
        0
    } else if i < DASH_ICONS_LEN * give_times {
        (i / give_times) as usize
    } else {
        (DASH_ICONS_LEN - 1) as usize
    }
}

/// How many cells of a trail get an effect.
pub open spec fn trail_marked_len() -> int {
    let give_times = (DASH_LENGTH / DASH_ICONS_LEN) as int;
    if give_times == 0 {
        DASH_LENGTH + 1
    } else {
        DASH_ICONS_LEN * give_times + DASH_LENGTH % DASH_ICONS_LEN
    }
}

/// `m` after the first `n` cells of a trail were marked, in order.
pub open spec fn trail_map(m: Map<Cell, DashEffect>, cells: Seq<Cell>, n: int) -> Map<
    Cell,
    DashEffect,
>
    decreases n,
{
    if n <= 0 {
        m
    } else {
        trail_map(m, cells, n - 1).insert(cells[n - 1], DashEffect::fresh(trail_stage(n - 1)))
    }
}

/// Every effect of a trail map is an old one or a new one on a trail cell.
pub proof fn lemma_trail_map(m: Map<Cell, DashEffect>, cells: Seq<Cell>, n: int)
    requires
        0 <= n <= cells.len(),
    ensures
        forall|k: Cell| #[trigger]
            trail_map(m, cells, n).contains_key(k) ==> (m.contains_key(k) && trail_map(
                m,
                cells,
                n,
            )[k] == m[k]) || (cells.subrange(0, n).contains(k) && trail_map(m, cells, n)[k].time_since_change
                == 0 && trail_map(m, cells, n)[k].state_idx < DASH_ICONS_LEN),
    decreases n,
{
    if n > 0 {
        lemma_trail_map(m, cells, n - 1);
        assert forall|k: Cell| #[trigger]
            trail_map(m, cells, n).contains_key(k) implies (m.contains_key(k) && trail_map(
            m,
            cells,
            n,
        )[k] == m[k]) || (cells.subrange(0, n).contains(k) && trail_map(m, cells, n)[k].time_since_change
            == 0 && trail_map(m, cells, n)[k].state_idx < DASH_ICONS_LEN) by {
            if k == cells[n - 1] {
                assert(cells.subrange(0, n)[n - 1] == k);
            } else {
                assert(trail_map(m, cells, n - 1).contains_key(k));
                if cells.subrange(0, n - 1).contains(k) {
                    let i = choose|i: int| 0 <= i < n - 1 && #[trigger] cells.subrange(0, n - 1)[i] == k;
                    assert(cells.subrange(0, n)[i] == k);
                }
            }
        }
    }
}

/// `m` with every cell of `cells` marked by a new effect in the first stage.
pub open spec fn burst_map(m: Map<Cell, DashEffect>, cells: Set<Cell>) -> Map<Cell, DashEffect> {
    Map::new(
        |k: Cell| m.contains_key(k) || cells.contains(k),
        |k: Cell|
            if cells.contains(k) {
                DashEffect::fresh(0)
            } else {
                m[k]
            },
    )
}


/// The trail effects on the board, at most one per cell, each under the key
/// of its cell (`cell_key`).
pub struct DashEffectCollection {
    container: HashMap<u128, DashEffect>,
}

impl View for DashEffectCollection {
    type V = Map<Cell, DashEffect>;

    closed spec fn view(&self) -> Map<Cell, DashEffect> {
        Map::new(
            |c: Cell| self.container@.contains_key(cell_key(c)),
            |c: Cell| self.container@[cell_key(c)],
        )
    }
}

impl Default for DashEffectCollection {
    fn default() -> (c: Self)
        ensures
            c.wf(),
            c@ == Map::<Cell, DashEffect>::empty(),
    {
        let c = DashEffectCollection { container: HashMap::new() };
        assert(c@ =~= Map::<Cell, DashEffect>::empty());
        c
    }
}

impl DashEffectCollection {
    /// Every key is that of a cell, and every effect is in a valid stage.
    pub closed spec fn wf(&self) -> bool {
        forall|k: u128| #[trigger]
            self.container@.contains_key(k) ==> is_cell_key(k) && self.container@[k].state_idx
                < DASH_ICONS_LEN
    }

    /// Every cell with an effect lies on the board.
    pub open spec fn on_board(&self) -> bool {
        forall|k: Cell| #[trigger] self@.contains_key(k) ==> in_grid(k.0 as int, k.1 as int)
    }

    /// The keys in use, each once.
    fn effect_keys(&self) -> (ks: Vec<u128>)
        ensures
            ks@.to_set() == self.container@.dom(),
            ks@.no_duplicates(),
    {
        let mut out: Vec<u128> = Vec::new();
        let it0 = self.container.keys();
        let ghost all = IteratorSpec::remaining(&it0);
        for k in it: it0
            invariant
                it.seq() == all,
                out@ == it.seq().take(it.index() as int).unref(),
        {
            out.push(*k);
        }
        assert(out@ =~= all.unref());
        out
    }

    /// Sets the effect of `cell`, replacing the one it had.
    fn insert_effect(&mut self, cell: Cell, e: DashEffect)
        requires
            old(self).wf(),
            e.state_idx < DASH_ICONS_LEN,
        ensures
            final(self).wf(),
            final(self)@ == old(self)@.insert(cell, e),
    {
        proof {
            lemma_cell_keys();
        }
        let k = key_of(cell);
        self.container.insert(k, e);
        proof {
            assert forall|c: Cell| #[trigger] self@.contains_key(c) <==> old(self)@.insert(
                cell,
                e,
            ).contains_key(c) by {
                if cell_key(c) == k {
                    assert(key_cell(cell_key(c)) == key_cell(cell_key(cell)));
                }
            }
            assert forall|c: Cell| #[trigger] self@.contains_key(c) implies self@[c] == old(
                self,
            )@.insert(cell, e)[c] by {
                if cell_key(c) == k {
                    assert(key_cell(cell_key(c)) == key_cell(cell_key(cell)));
                }
            }
            assert(self@ =~= old(self)@.insert(cell, e));
        }
    }

    /// Draws every effect with the icon of its stage.
    pub fn render(&self, game_grid: &mut GameGrid)
        requires
            self.wf(),
            self.on_board(),
        ensures
            forall|x: int, y: int|
                #![trigger grid_cell(*final(game_grid), x, y)]
                in_grid(x, y) ==> grid_cell(*final(game_grid), x, y) == if self@.contains_key(
                    (x as usize, y as usize),
                ) {
                    dash_icon_spec(self@[(x as usize, y as usize)].state_idx as int)
                } else {
                    grid_cell(*old(game_grid), x, y)
                },
    {
        proof {
            lemma_cell_keys();
        }
        let ks = self.effect_keys();
        let ghost m = self.container@;
        let n = ks.len();
        let mut i: usize = 0;
        while i < n
            invariant
                n == ks.len(),
                m == self.container@,
                ks@.to_set() == m.dom(),
                self.wf(),
                self.on_board(),
                i <= n,
                forall|x: int, y: int|
                    #![trigger grid_cell(*game_grid, x, y)]
                    in_grid(x, y) ==> grid_cell(*game_grid, x, y) == if ks@.take(i as int).contains(
                        cell_key((x as usize, y as usize)),
                    ) {
                        dash_icon_spec(m[cell_key((x as usize, y as usize))].state_idx as int)
                    } else {
                        grid_cell(*old(game_grid), x, y)
                    },
            decreases n - i,
        {
            let k = ks[i];
            proof {
                assert(ks@.to_set().contains(k));
                lemma_take_grow(ks@, i as int);
            }
            let c = cell_of(k);
            assert(self@.contains_key(c));
            let e = match self.container.get(&k) {
                Some(e) => *e,
                None => DashEffect::default(),
            };
            let icon = dash_icon(e.state_idx);
            let ghost prev = *game_grid;
            game_grid[c.1][c.0] = icon;
            proof {
                assert forall|x: int, y: int| in_grid(x, y) implies #[trigger] grid_cell(
                    *game_grid,
                    x,
                    y,
                ) == if ks@.take(i + 1).contains(cell_key((x as usize, y as usize))) {
                    dash_icon_spec(m[cell_key((x as usize, y as usize))].state_idx as int)
                } else {
                    grid_cell(*old(game_grid), x, y)
                } by {
                    let d = (x as usize, y as usize);
                    if y != c.1 {
                        assert(game_grid@[y] == prev@[y]);
                    }
                    if cell_key(d) == k {
                        assert(key_cell(cell_key(d)) == key_cell(k));
                    }
                    assert(grid_cell(prev, x, y) == if ks@.take(i as int).contains(cell_key(d)) {
                        dash_icon_spec(m[cell_key(d)].state_idx as int)
                    } else {
                        grid_cell(*old(game_grid), x, y)
                    });
                }
            }
            i += 1;
        }
        proof {
            assert(ks@.take(n as int) =~= ks@);
            assert forall|x: int, y: int| in_grid(x, y) implies ks@.contains(
                cell_key((x as usize, y as usize)),
            ) == self@.contains_key((x as usize, y as usize)) by {
                assert(ks@.to_set().contains(cell_key((x as usize, y as usize))) == ks@.contains(
                    cell_key((x as usize, y as usize)),
                ));
            }
        }
    }

    /// Advances every effect by `dt`; effects past their last stage vanish.
    pub fn update(&mut self, dt: u128)
        requires
            old(self).wf(),
            forall|k: Cell| #[trigger]
                old(self)@.contains_key(k) ==> old(self)@[k].time_since_change + dt
                    <= MAX_DURATION,
        ensures
            final(self).wf(),
            final(self)@ == Map::new(
                |k: Cell|
                    old(self)@.contains_key(k) && old(self)@[k].tick(dt as int).state_idx
                        < DASH_ICONS_LEN,
                |k: Cell| old(self)@[k].tick(dt as int),
            ),
    {
        proof {
            lemma_cell_keys();
        }
        let ks = self.effect_keys();
        let ghost m = self.container@;
        proof {
            assert forall|k: u128| #[trigger] m.contains_key(k) implies m[k].time_since_change + dt
                <= MAX_DURATION by {
                assert(self@.contains_key(key_cell(k)));
            }
        }
        let mut kept: HashMap<u128, DashEffect> = HashMap::new();
        let n = ks.len();
        let mut i: usize = 0;
        while i < n
            invariant
                n == ks.len(),
                m == self.container@,
                ks@.to_set() == m.dom(),
                self.wf(),
                i <= n,
                forall|k: u128| #[trigger]
                    m.contains_key(k) ==> m[k].time_since_change + dt <= MAX_DURATION,
                kept@ == Map::new(
                    |k: u128|
                        ks@.take(i as int).contains(k) && m[k].tick(dt as int).state_idx
                            < DASH_ICONS_LEN,
                    |k: u128| m[k].tick(dt as int),
                ),
            decreases n - i,
        {
            let k = ks[i];
            proof {
                assert(ks@.to_set().contains(k));
                lemma_take_grow(ks@, i as int);
            }
            let e = match self.container.get(&k) {
                Some(e) => *e,
                None => DashEffect::default(),
            };
            let mut e2 = e;
            e2.time_since_change = e2.time_since_change + dt;
            if e2.time_since_change >= DASH_EFFECT_CHANGE {
                e2.state_idx = e2.state_idx + 1;
                e2.time_since_change = e2.time_since_change - DASH_EFFECT_CHANGE;
            }
            assert(e2 == m[k].tick(dt as int));
            if e2.state_idx < DASH_ICONS_LEN {
                kept.insert(k, e2);
            }
            assert(kept@ =~= Map::new(
                |a: u128|
                    ks@.take(i + 1).contains(a) && m[a].tick(dt as int).state_idx
                        < DASH_ICONS_LEN,
                |a: u128| m[a].tick(dt as int),
            ));
            i += 1;
        }
        proof {
            assert(ks@.take(n as int) =~= ks@);
            assert forall|a: u128| ks@.contains(a) == m.contains_key(a) by {
                assert(ks@.to_set().contains(a) == ks@.contains(a));
            }
        }
        self.container = kept;
        proof {
            assert(self@ =~= Map::new(
                |c: Cell|
                    old(self)@.contains_key(c) && old(self)@[c].tick(dt as int).state_idx
                        < DASH_ICONS_LEN,
                |c: Cell| old(self)@[c].tick(dt as int),
            ));
        }
    }

    /// Drops the effects on every cell of `targets`.
    pub fn remove_cells(&mut self, targets: &[Cell])
        requires
            old(self).wf(),
        ensures
            final(self).wf(),
            final(self)@ == Map::new(
                |k: Cell| old(self)@.contains_key(k) && !targets@.contains(k),
                |k: Cell| old(self)@[k],
            ),
    {
        proof {
            lemma_cell_keys();
        }
        let n = targets.len();
        let mut i: usize = 0;
        assert(self@ =~= Map::new(
            |c: Cell| old(self)@.contains_key(c) && !targets@.take(0).contains(c),
            |c: Cell| old(self)@[c],
        ));
        while i < n
            invariant
                n == targets.len(),
                i <= n,
                self.wf(),
                self@ == Map::new(
                    |c: Cell| old(self)@.contains_key(c) && !targets@.take(i as int).contains(c),
                    |c: Cell| old(self)@[c],
                ),
            decreases n - i,
        {
            let t = targets[i];
            let k = key_of(t);
            proof {
                lemma_take_grow(targets@, i as int);
            }
            let ghost before = self.container@;
            let ghost pv = self@;
            self.container.remove(&k);
            proof {
                assert forall|c: Cell| #[trigger] self@.contains_key(c) == (old(self)@.contains_key(c)
                    && !targets@.take(i + 1).contains(c)) by {
                    assert(pv.contains_key(c) == before.contains_key(cell_key(c)));
                    assert(self@.contains_key(c) == self.container@.contains_key(cell_key(c)));
                    if cell_key(c) == k {
                        assert(key_cell(cell_key(c)) == key_cell(cell_key(t)));
                    }
                }
                assert forall|c: Cell| #[trigger] self@.contains_key(c) implies self@[c] == old(
                    self,
                )@[c] by {
                    assert(pv.contains_key(c));
                    assert(pv[c] == before[cell_key(c)]);
                }
                assert(self@ =~= Map::new(
                    |c: Cell| old(self)@.contains_key(c) && !targets@.take(i + 1).contains(c),
                    |c: Cell| old(self)@[c],
                ));
            }
            i += 1;
        }
        assert(targets@.take(n as int) =~= targets@);
    }

    /// Marks every cell of `cells` with a new effect in the first stage.
    pub fn add_burst(&mut self, cells: Vec<Cell>)
        requires
            old(self).wf(),
        ensures
            final(self).wf(),
            final(self)@ == burst_map(old(self)@, cells@.to_set()),
    {
        let n = cells.len();
        let mut i: usize = 0;
        while i < n
            invariant
                n == cells.len(),
                i <= n,
                self.wf(),
                self@ == burst_map(old(self)@, cells@.take(i as int).to_set()),
            decreases n - i,
        {
            self.insert_effect(cells[i], DashEffect::default());
            proof {
                lemma_take_grow(cells@, i as int);
                let t = cells@.take(i + 1);
                assert(self@ =~= burst_map(old(self)@, t.to_set()));
            }
            i += 1;
        }
        proof {
            assert(cells@.take(n as int) =~= cells@);
        }
    }

    /// Lays down the trail of a dash. `cells` runs from the player's new
    /// position back along the path of the dash; its cells get the fade stages
    /// newest first, as `trail_stage` gives them.
    pub fn add(&mut self, cells: Vec<Cell>)
        requires
            old(self).wf(),
            cells.len() == DASH_LENGTH + 1,
        ensures
            final(self).wf(),
            final(self)@ == trail_map(old(self)@, cells@, trail_marked_len()),
    {
        let give_times = DASH_LENGTH / DASH_ICONS_LEN;

        if give_times == 0 {
            let mut i: usize = 0;
            while i < cells.len()
                invariant
                    give_times == 0,
                    give_times == DASH_LENGTH / DASH_ICONS_LEN,
                    cells.len() == DASH_LENGTH + 1,
                    i <= cells.len(),
                    self.wf(),
                    self@ == trail_map(old(self)@, cells@, i as int),
                decreases cells.len() - i,
            {
                self.insert_effect(cells[i], DashEffect::default());
                i += 1;
            }
            return;
        }

        assert(give_times == 2);
        let mut state_idx: usize = 0;
        let mut cell_idx: usize = 0;
        while state_idx < DASH_ICONS_LEN
            invariant
                give_times == DASH_LENGTH / DASH_ICONS_LEN,
                give_times == 2,
                cells.len() == DASH_LENGTH + 1,
                state_idx <= DASH_ICONS_LEN,
                cell_idx == state_idx * give_times,
                self.wf(),
                self@ == trail_map(old(self)@, cells@, cell_idx as int),
            decreases DASH_ICONS_LEN - state_idx,
        {
            let mut t: usize = 0;
            while t < give_times
                invariant
                    give_times == DASH_LENGTH / DASH_ICONS_LEN,
                    give_times == 2,
                    cells.len() == DASH_LENGTH + 1,
                    state_idx < DASH_ICONS_LEN,
                    t <= give_times,
                    cell_idx == state_idx * give_times + t,
                    self.wf(),
                    self@ == trail_map(old(self)@, cells@, cell_idx as int),
                decreases give_times - t,
            {
                assert(trail_stage(cell_idx as int) == state_idx);
                self.insert_effect(cells[cell_idx], DashEffect { state_idx, time_since_change: 0 });
                cell_idx += 1;
                t += 1;
            }
            state_idx += 1;
        }

        let rem = DASH_LENGTH % DASH_ICONS_LEN;
        let mut t: usize = 0;
        while t < rem
            invariant
                give_times == DASH_LENGTH / DASH_ICONS_LEN,
                give_times == 2,
                rem == DASH_LENGTH % DASH_ICONS_LEN,
                cells.len() == DASH_LENGTH + 1,
                state_idx == DASH_ICONS_LEN,
                t <= rem,
                cell_idx == DASH_ICONS_LEN * give_times + t,
                self.wf(),
                self@ == trail_map(old(self)@, cells@, cell_idx as int),
            decreases rem - t,
        {
            self.insert_effect(
                cells[cell_idx],
                DashEffect { state_idx: state_idx - 1, time_since_change: 0 },
            );
            cell_idx += 1;
            t += 1;
        }
    }
}

} // verus!
