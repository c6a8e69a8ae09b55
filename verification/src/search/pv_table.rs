use vstd::prelude::*;
use vstd::string::StringExecFns;
use crate::moving::mv::{Move, start_of, target_of, square_name};
use crate::text::push_char;

verus! {

/// A triangular table of principal variations: row `ply` holds `n - ply`
/// moves, the best line found from that ply on.
pub struct PvTable {
    n: usize,
    table: Vec<Move>,
}

/// Index of the first move of row `ply` in a table of `n` rows.
pub open spec fn row_start(n: int, ply: int) -> int {
    ply * (2 * n - ply + 1) / 2
}

/// Number of leading non-null moves among `cnt` moves from `source`.
pub open spec fn lead(t: Seq<u16>, source: int, cnt: int) -> int
    decreases cnt,
{
    if cnt <= 0 {
        0
    } else if t[source] == 0 {
        0
    } else {
        1 + lead(t, source + 1, cnt - 1)
    }
}

/// `t` with the `m` moves from `source` copied to `target`.
pub open spec fn copied(t: Seq<u16>, target: int, source: int, m: int) -> Seq<u16> {
    Seq::new(t.len(), |i: int| if target <= i < target + m { t[source + (i - target)] } else { t[i] })
}

/// The table after `update(ply, mv)`: `mv` heads row `ply`, followed by the
/// leading non-null moves of row `ply + 1`.
pub open spec fn pv_updated(t: Seq<u16>, n: int, ply: int, mv: u16) -> Seq<u16> {
    let s = row_start(n, ply);
    let t1 = t.update(s, mv);
    if ply + 1 < n {
        let src = row_start(n, ply + 1);
        copied(t1, s + 1, src, lead(t1, src, n - ply - 1))
    } else {
        t1
    }
}

/// A move in coordinate notation.
pub open spec fn move_text(v: u16) -> Seq<char> {
    square_name(start_of(v) as int) + square_name(target_of(v) as int)
}

/// The first `k` moves of `t`, each followed by a space.
pub open spec fn pv_line(t: Seq<u16>, k: int) -> Seq<char>
    decreases k,
{
    if k <= 0 {
        Seq::empty()
    } else {
        pv_line(t, k - 1) + move_text(t[k - 1]) + seq![' ']
    }
}

/// Appends a move in coordinate notation and a space.
pub fn push_move_text(s: &mut String, mv: &Move)
    ensures
        final(s)@ == old(s)@ + (move_text(mv@) + seq![' ']),
{
    s.append(mv.to_str().as_str());
    push_char(s, ' ');
    proof {
        assert(final(s)@ =~= old(s)@ + (move_text(mv@) + seq![' ']));
    }
}

proof fn lemma_row_start(n: int, p: int)
    requires
        0 <= p <= n,
    ensures
        row_start(n, p + 1) == row_start(n, p) + n - p,
        0 <= row_start(n, p),
        row_start(n, p) + (n - p) <= row_start(n, n),
        row_start(n, 0) == 0,
        row_start(n, n) == (n * n + n) / 2,
        p * (2 * n - p + 1) <= n * n + n,
{
    let a = p * (2 * n - p + 1);
    let b = (p + 1) * (2 * n - p);
    assert(b == a + 2 * (n - p)) by (nonlinear_arith)
        requires
            a == p * (2 * n - p + 1),
            b == (p + 1) * (2 * n - p),
    ;
    assert(a >= 0) by (nonlinear_arith)
        requires
            0 <= p <= n,
            a == p * (2 * n - p + 1),
    ;
    assert(a <= n * n + n) by (nonlinear_arith)
        requires
            0 <= p <= n,
            a == p * (2 * n - p + 1),
    ;
    assert(n * (2 * n - n + 1) == n * n + n) by (nonlinear_arith);
    assert(b <= n * n + n) by (nonlinear_arith)
        requires
            0 <= p <= n,
            b == (p + 1) * (2 * n - p),
            b == a + 2 * (n - p),
            a <= n * n + n,
    {
        if p == n {
        } else {
            assert((p + 1) <= n);
        }
    }
    assert(b / 2 == a / 2 + (n - p)) by (nonlinear_arith)
        requires
            b == a + 2 * (n - p),
    ;
    assert(0 * (2 * n - 0 + 1) == 0);
}

proof fn lemma_row_mono(n: int, p: int, q: int)
    requires
        0 <= p <= q <= n,
    ensures
        row_start(n, p) + (q - p) <= row_start(n, q),
    decreases q - p,
{
    if p < q {
        lemma_row_start(n, p);
        lemma_row_mono(n, p + 1, q);
    }
}

impl PvTable {
    /// The table has room for all `n` rows.
    pub closed spec fn wf(&self) -> bool {
        &&& self.n * self.n + self.n <= usize::MAX
        &&& self.table@.len() == (self.n * self.n + self.n) / 2
    }

    /// The number of rows.
    pub closed spec fn rows(&self) -> int {
        self.n as int
    }

    /// The moves of the table, row after row.
    pub closed spec fn moves(&self) -> Seq<u16> {
        self.table@.map_values(|m: Move| m@)
    }

    /// A table of `n` rows filled with the null move.
    pub fn new(n: usize) -> (r: Self)
        requires
            n * n + n <= usize::MAX,
        ensures
            r.wf(),
            r.rows() == n,
            r.moves().len() == (n * n + n) / 2,
            forall|i: int| 0 <= i < r.moves().len() ==> #[trigger] r.moves()[i] == 0,
    {
        let size = (n * n + n) / 2;
        let table: Vec<Move> = vec![Move::null(); size];
        let r = PvTable { n, table };
        assert forall|i: int| 0 <= i < r.moves().len() implies #[trigger] r.moves()[i] == 0 by {
            assert(r.table@[i]@ == 0);
        }
        r
    }

    fn index(&self, ply: usize, col: usize) -> (r: usize)
        requires
            self.wf(),
            ply < self.n,
            col < self.n - ply,
        ensures
            r == row_start(self.n as int, ply as int) + col,
            r < self.table@.len(),
    {
        proof {
            lemma_row_start(self.n as int, ply as int);
            lemma_row_mono(self.n as int, ply as int, self.n as int);
            let nn = self.n as int;
            assert(2 * nn <= nn * nn + nn) by (nonlinear_arith)
                requires
                    nn >= 0,
            {
                if nn >= 1 {
                    assert(nn * nn >= nn * 1) by (nonlinear_arith)
                        requires
                            nn >= 1,
                    ;
                }
            }
        }
        let n = self.n;
        ply * (2 * n - ply + 1) / 2 + col
    }

    /// Starts row `ply` with `mv` and appends the line of row `ply + 1`.
    pub fn update(&mut self, ply: usize, mv: Move)
        requires
            old(self).wf(),
            ply < old(self).rows(),
        ensures
            final(self).wf(),
            final(self).rows() == old(self).rows(),
            final(self).moves() == pv_updated(old(self).moves(), old(self).rows(), ply as int, mv@),
    {
        let i0 = self.index(ply, 0);
        self.table.set(i0, mv);
        let ghost t1 = self.moves();
        proof {
            assert(t1 =~= old(self).moves().update(row_start(self.n as int, ply as int), mv@));
        }
        if ply + 1 < self.n {
            let target = self.index(ply, 1);
            let source = self.index(ply + 1, 0);
            proof {
                lemma_row_start(self.n as int, ply as int);
                lemma_row_start(self.n as int, ply as int + 1);
                lemma_row_mono(self.n as int, ply as int + 1, self.n as int);
            }
            self.movcpy(target, source, self.n - ply - 1);
        }
    }

    fn movcpy(&mut self, target: usize, source: usize, n: usize)
        requires
            old(self).wf(),
            target + n <= source,
            source + n <= old(self).table@.len(),
        ensures
            final(self).wf(),
            final(self).n == old(self).n,
            final(self).moves() == copied(old(self).moves(), target as int, source as int, lead(
                old(self).moves(),
                source as int,
                n as int,
            )),
    {
        let ghost t0 = self.moves();
        let mut target = target;
        let mut source = source;
        let mut n = n;
        let ghost tg0 = target as int;
        let ghost sr0 = source as int;
        let ghost n0 = n as int;
        while n != 0 && !self.table[source].is_null()
            invariant
                self.wf(),
                self.n == old(self).n,
                self.table@.len() == t0.len(),
                target as int + n as int <= source as int,
                source as int + n as int <= t0.len(),
                target - tg0 == source - sr0,
                0 <= target - tg0,
                (target - tg0) + n == n0,
                lead(t0, sr0, n0) == (target - tg0) + lead(t0, source as int, n as int),
                tg0 + n0 <= sr0,
                forall|i: int| source <= i < t0.len() ==> #[trigger] self.moves()[i] == t0[i],
                self.moves() == copied(t0, tg0, sr0, target - tg0),
            decreases n,
        {
            let mv = self.table[source];
            let ghost prev = self.moves();
            proof {
                assert(prev[source as int] == mv@);
                assert(t0[source as int] != 0);
                assert(lead(t0, source as int, n as int) == 1 + lead(t0, source as int + 1, n as int - 1));
            }
            self.table.set(target, mv);
            proof {
                assert(self.moves() =~= prev.update(target as int, mv@));
                assert(self.moves() =~= copied(t0, tg0, sr0, target - tg0 + 1));
            }
            n -= 1;
            target += 1;
            source += 1;
        }
        proof {
            if n != 0 {
                assert(self.moves()[source as int] == self.table@[source as int]@);
                assert(t0[source as int] == 0);
            }
            assert(lead(t0, source as int, n as int) == 0);
        }
    }

    /// The first move of row `ply`.
    pub fn get_best(&self, ply: usize) -> (r: Move)
        requires
            self.wf(),
            ply < self.rows(),
        ensures
            r@ == self.moves()[row_start(self.rows(), ply as int)],
    {
        let i = self.index(ply, 0);
        self.table[i]
    }

    /// The moves of row 0 up to the first null one, each followed by a space.
    pub fn get_pv_string(&self) -> (r: String)
        requires
            self.wf(),
        ensures
            r@ == pv_line(self.moves(), lead(self.moves(), 0, self.rows())),
    {
        let ghost t = self.moves();
        let mut s = String::new();
        let mut i: usize = 0;
        proof {
            lemma_row_start(self.n as int, 0);
            lemma_row_mono(self.n as int, 0, self.n as int);
        }
        while i < self.n && !self.table[self.index(0, i)].is_null()
            invariant
                self.wf(),
                t == self.moves(),
                0 <= i <= self.n,
                self.n <= self.table@.len(),
                lead(t, 0, self.n as int) == i + lead(t, i as int, self.n - i),
                s@ == pv_line(t, i as int),
            decreases self.n - i,
        {
            proof {
                lemma_row_start(self.n as int, 0);
            }
            let mv = self.table[i];
            s.append(mv.to_str().as_str());
            push_char(&mut s, ' ');
            proof {
                assert(t[i as int] == mv@);
                assert(s@ =~= pv_line(t, i as int + 1));
            }
            i += 1;
        }
        proof {
            lemma_row_start(self.n as int, 0);
            assert(lead(t, i as int, self.n - i) == 0);
        }
        s
    }
}

/// The move an update puts at the head of a row is the best move read back
/// from that row.
pub proof fn law_best_after_update(t: Seq<u16>, n: int, ply: int, mv: u16)
    requires
        0 <= ply < n,
        t.len() == (n * n + n) / 2,
    ensures
        pv_updated(t, n, ply, mv)[row_start(n, ply)] == mv,
{
    lemma_row_start(n, ply);
    lemma_row_mono(n, ply, n);
    if ply + 1 < n {
        lemma_row_start(n, ply + 1);
    }
}

} // verus!
