use vstd::prelude::*;
use crate::selecter::Selecter;
use crate::codec::{utf8_lossy, utf8_lossy_text};
use crate::json::{json_usize_array, json_usizes};
use crate::text::{copy_str, push_str};

verus! {

/// The trades a strategy's marks describe: the marks taken two at a time as
/// entry and exit positions (a trailing odd mark is ignored), keeping the
/// pairs whose two positions both lie among the `rows` prices.
pub open spec fn trades(marks: Seq<usize>, rows: nat) -> Seq<(usize, usize)>
    decreases marks.len(),
{
    if marks.len() < 2 {
        Seq::empty()
    } else {
        let rest = trades(marks.skip(2), rows);
        if marks[0] < rows && marks[1] < rows {
            seq![(marks[0], marks[1])] + rest
        } else {
            rest
        }
    }
}

/// The trades of the marks over a table: none without data, else those
/// within the table's first column.
pub open spec fn table_trades(data: Seq<Seq<Seq<char>>>, marks: Seq<usize>) -> Seq<(usize, usize)> {
    if data.len() == 0 {
        Seq::empty()
    } else {
        trades(marks, data[0].len())
    }
}

/// Every trade lies within the prices, and there is at most one trade per
/// two marks.
pub proof fn lemma_trades_bounded(marks: Seq<usize>, rows: nat)
    ensures
        trades(marks, rows).len() <= marks.len() / 2,
        forall|k: int|
            0 <= k < trades(marks, rows).len() ==> #[trigger] trades(marks, rows)[k].0 < rows
                && trades(marks, rows)[k].1 < rows,
    decreases marks.len(),
{
    if marks.len() >= 2 {
        lemma_trades_bounded(marks.skip(2), rows);
        let rest = trades(marks.skip(2), rows);
        if marks[0] < rows && marks[1] < rows {
            assert forall|k: int|
                0 <= k < trades(marks, rows).len() implies #[trigger] trades(marks, rows)[k].0 < rows
                && trades(marks, rows)[k].1 < rows by {
                if k > 0 {
                    assert(trades(marks, rows)[k] == rest[k - 1]);
                }
            }
        }
    }
}

/// The entry and exit positions of the strategy's trades over `data`:
/// `mark` read two at a time, each pair kept when both positions fall in
/// the first column of `data`; nothing without data.
pub fn trade_pairs(data: &Vec<Vec<String>>, mark: &Vec<usize>) -> (r: Vec<(usize, usize)>)
    ensures
        r@ == table_trades(data.deep_view(), mark@),
        r@.len() <= mark@.len() / 2,
        forall|k: int|
            0 <= k < r@.len() ==> #[trigger] r@[k].0 < data@[0]@.len() && r@[k].1 < data@[0]@.len(),
{
    let mut out: Vec<(usize, usize)> = Vec::new();
    if data.len() == 0 {
        proof {
            lemma_trades_bounded(mark@, 0);
        }
        return out;
    }
    let rows = data[0].len();
    let ghost dv = data.deep_view();
    assert(dv[0].len() == rows);
    let n = mark.len();
    let mut i: usize = 0;
    assert(mark@.skip(0) =~= mark@);
    while n - i >= 2
        invariant
            n == mark@.len(),
            i <= n,
            out@ + trades(mark@.skip(i as int), rows as nat) == trades(mark@, rows as nat),
        decreases n - i,
    {
        let ghost rest = mark@.skip(i as int);
        assert(rest[0] == mark@[i as int]);
        assert(rest[1] == mark@[i + 1]);
        assert(rest.skip(2) =~= mark@.skip(i + 2));
        let a = mark[i];
        let b = mark[i + 1];
        if a < rows && b < rows {
            let ghost before = out@;
            out.push((a, b));
            assert(out@ =~= before + seq![(a, b)]);
            assert(out@ + trades(mark@.skip(i + 2), rows as nat) =~= before + trades(rest, rows as nat));
        }
        i = i + 2;
    }
    proof {
        assert(mark@.skip(i as int).len() < 2);
        assert(out@ + Seq::<(usize, usize)>::empty() =~= out@);
        lemma_trades_bounded(mark@, rows as nat);
        let t = trades(mark@, rows as nat);
        assert(out@ == t);
        assert forall|k: int| 0 <= k < out@.len() implies #[trigger] out@[k].0 < rows && out@[k].1 < rows by {
            assert(out@[k] == t[k]);
        }
    }
    out
}

/// The strategy's marks from what it printed (decoded leniently as UTF-8):
/// its JSON array of positions; none where the output is no such array.
pub fn marks(stdout: &[u8]) -> (r: Vec<usize>)
    ensures
        r@ == match json_usize_array(utf8_lossy_text(stdout@)) {
            Some(v) => v,
            None => Seq::empty(),
        },
{
    let text = utf8_lossy(stdout);
    match json_usizes(text.as_str()) {
        Some(v) => v,
        None => Vec::new(),
    }
}

/// Where the strategy named `name` is kept: `strategy/<name>.js`.
pub fn strategy_path(name: &str) -> (r: String)
    ensures
        r@ == "strategy/"@ + name@ + ".js"@,
{
    let mut s = copy_str("strategy/");
    push_str(&mut s, name);
    push_str(&mut s, ".js");
    s
}

impl Selecter {
    /// The trades that the strategy's marks describe over the selected
    /// data (its first column holds the prices).
    pub fn back_test(&self, mark: &Vec<usize>) -> (r: Vec<(usize, usize)>)
        ensures
            r@ == table_trades(self.data.deep_view(), mark@),
            r@.len() <= mark@.len() / 2,
    {
        trade_pairs(&self.data, mark)
    }
}

} // verus!
