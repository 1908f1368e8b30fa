//! The degrees-of-freedom lookup table. Critical t-values are carried in
//! thousandths and probabilities in millionths, so every band comparison is
//! exact integer arithmetic; the caller scales real-valued statistics on the
//! way in and out.
use vstd::prelude::*;

verus! {

/// One table row: the degrees of freedom it covers and the critical
/// t-values, in thousandths, of the eight canonical significance bands.
#[derive(Clone, Copy, PartialEq, Eq, Structural, Debug)]
pub struct TRow {
    pub df: i64,
    pub p20: i64,
    pub p10: i64,
    pub p05: i64,
    pub p02: i64,
    pub p01: i64,
    pub p005: i64,
    pub p002: i64,
    pub p001: i64,
}

/// One probability in millionths: one one-thousandth.
pub const P_MILLIONTHS_001: i64 = 1000;

/// One probability in millionths: the whole unit, meaning not significant.
pub const P_MILLIONTHS_ONE: i64 = 1000000;

/// The sentinel critical value, in thousandths, for degrees of freedom the
/// table does not know.
pub const T_THOUSANDTHS_SENTINEL: i64 = 1000000;

impl TRow {
    /// The critical value of the first band at least as large as the asked
    /// probability (in millionths), or of the most significant band.
    pub open spec fn t_for_p_spec(self, p: i64) -> i64 {
        if p >= 200000 {
            self.p20
        } else if p >= 100000 {
            self.p10
        } else if p >= 50000 {
            self.p05
        } else if p >= 20000 {
            self.p02
        } else if p >= 10000 {
            self.p01
        } else if p >= 5000 {
            self.p005
        } else if p >= 2000 {
            self.p002
        } else {
            self.p001
        }
    }

    /// The smallest listed probability (in millionths) whose critical value
    /// the statistic exceeds, or the whole unit.
    pub open spec fn p_for_t_spec(self, t: i64) -> i64 {
        if t > self.p001 {
            1000
        } else if t > self.p002 {
            2000
        } else if t > self.p005 {
            5000
        } else if t > self.p01 {
            10000
        } else if t > self.p02 {
            20000
        } else if t > self.p05 {
            50000
        } else if t > self.p10 {
            100000
        } else if t > self.p20 {
            200000
        } else {
            1000000
        }
    }

    /// Critical value lookup by probability band.
    pub fn t_for_p(&self, p: i64) -> (r: i64)
        ensures
            r == self.t_for_p_spec(p),
    {
        if p >= 200000 {
            self.p20
        } else if p >= 100000 {
            self.p10
        } else if p >= 50000 {
            self.p05
        } else if p >= 20000 {
            self.p02
        } else if p >= 10000 {
            self.p01
        } else if p >= 5000 {
            self.p005
        } else if p >= 2000 {
            self.p002
        } else {
            self.p001
        }
    }

    /// Banded probability lookup by statistic.
    pub fn p_for_t(&self, t: i64) -> (r: i64)
        ensures
            r == self.p_for_t_spec(t),
    {
        if t > self.p001 {
            1000
        } else if t > self.p002 {
            2000
        } else if t > self.p005 {
            5000
        } else if t > self.p01 {
            10000
        } else if t > self.p02 {
            20000
        } else if t > self.p05 {
            50000
        } else if t > self.p10 {
            100000
        } else if t > self.p20 {
            200000
        } else {
            1000000
        }
    }
}

/// The row the table lists for given degrees of freedom: the nearest of
/// the present rows, saturating at one thousand.
pub open spec fn nearest_df_spec(df: i64) -> i64 {
    if df <= 40 {
        df
    } else if df <= 50 {
        if df % 2 == 0 {
            df
        } else {
            (df - 1) as i64
        }
    } else if df <= 100 {
        (df - (df % 10)) as i64
    } else if df < 120 {
        100
    } else if df < 150 {
        120
    } else if df < 200 {
        150
    } else if df < 300 {
        200
    } else if df < 500 {
        300
    } else if df < 750 {
        500
    } else {
        1000
    }
}

/// The index of the first row covering the given degrees of freedom, or the
/// length when no row does.
pub open spec fn row_index(rows: Seq<TRow>, df: i64) -> int
    decreases rows.len(),
{
    if rows.len() == 0 {
        0
    } else if rows[0].df == df {
        0
    } else {
        1 + row_index(rows.skip(1), df)
    }
}

pub proof fn lemma_row_index(rows: Seq<TRow>, df: i64, k: int)
    requires
        0 <= k <= rows.len(),
        forall|l: int| 0 <= l < k ==> (#[trigger] rows[l]).df != df,
        k < rows.len() ==> rows[k].df == df,
    ensures
        row_index(rows, df) == k,
    decreases k,
{
    if k > 0 {
        lemma_row_index(rows.skip(1), df, k - 1);
    }
}

/// The immutable critical-value table, loaded once.
pub struct TTable {
    lut: Vec<TRow>,
}

impl View for TTable {
    type V = Seq<TRow>;

    closed spec fn view(&self) -> Seq<TRow> {
        self.lut@
    }
}

impl TTable {
    /// A table holding exactly the given rows, in order.
    pub fn from_rows(rows: Vec<TRow>) -> (r: TTable)
        ensures
            r@ == rows@,
    {
        TTable { lut: rows }
    }

    /// How many rows the table holds.
    pub fn row_count(&self) -> (r: usize)
        ensures
            r == self@.len(),
    {
        self.lut.len()
    }

    /// Snaps degrees of freedom to the nearest row the table lists: exact
    /// below forty, even numbers to fifty, tens to one hundred, then the
    /// steps 100, 120, 150, 200, 300, 500 and 1000.
    pub fn nearest_df(df: i64) -> (r: i64)
        ensures
            r == nearest_df_spec(df),
    {
        if df <= 40 {
            df
        } else if df <= 50 {
            if df % 2 == 0 {
                df
            } else {
                df - 1
            }
        } else if df <= 100 {
            df - (df % 10)
        } else if df < 120 {
            100
        } else if df < 150 {
            120
        } else if df < 200 {
            150
        } else if df < 300 {
            200
        } else if df < 500 {
            300
        } else if df < 750 {
            500
        } else {
            1000
        }
    }

    /// The critical value (in thousandths) for the snapped degrees of
    /// freedom and the asked probability (in millionths), or the sentinel
    /// when the table has no such row.
    pub fn get_t_for(&self, df: i64, p: i64) -> (r: i64)
        ensures
            ({
                let i = row_index(self@, nearest_df_spec(df));
                if i < self@.len() {
                    r == self@[i].t_for_p_spec(p)
                } else {
                    r == T_THOUSANDTHS_SENTINEL
                }
            }),
    {
        let snapped = TTable::nearest_df(df);
        let i = self.find_row(snapped);
        if i < self.lut.len() {
            self.lut[i].t_for_p(p)
        } else {
            1000000
        }
    }

    /// The banded probability (in millionths) for the snapped degrees of
    /// freedom and the statistic (in thousandths), or the whole unit when
    /// the table has no such row.
    pub fn get_p_for(&self, df: i64, t: i64) -> (r: i64)
        ensures
            ({
                let i = row_index(self@, nearest_df_spec(df));
                if i < self@.len() {
                    r == self@[i].p_for_t_spec(t)
                } else {
                    r == P_MILLIONTHS_ONE
                }
            }),
    {
        let snapped = TTable::nearest_df(df);
        let i = self.find_row(snapped);
        if i < self.lut.len() {
            self.lut[i].p_for_t(t)
        } else {
            1000000
        }
    }

    /// The index of the first row for the given (already snapped) degrees
    /// of freedom, or the length.
    fn find_row(&self, df: i64) -> (r: usize)
        ensures
            r == row_index(self@, df),
            r <= self@.len(),
            r < self@.len() ==> self@[r as int].df == df,
    {
        let mut i: usize = 0;
        while i < self.lut.len()
            invariant
                i <= self@.len(),
                forall|l: int| 0 <= l < i ==> (#[trigger] self@[l]).df != df,
            decreases self@.len() - i,
        {
            if self.lut[i].df == df {
                proof {
                    lemma_row_index(self@, df, i as int);
                }
                return i;
            }
            i = i + 1;
        }
        proof {
            lemma_row_index(self@, df, self@.len() as int);
        }
        self.lut.len()
    }
}

} // verus!
