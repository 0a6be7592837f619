use vstd::prelude::*;
use crate::codec::{utf8_lossy, utf8_lossy_text};
use crate::json::{json_array_cells, json_array_items, json_int_array, json_ints};
use crate::text::{copy_str, parse_i64, parse_i64_chars, push_str, to_chars};

verus! {

// A column formula is a JavaScript expression in `num`, mapped by bun over
// the column's numbers. The library builds what bun is handed and reads
// what it prints; running it is the caller's.

/// A cell read as a number: `str::parse::<i64>`, 0 where that fails.
pub open spec fn int_cell(s: Seq<char>) -> i64 {
    match parse_i64(s) {
        Some(v) => v,
        None => 0,
    }
}

/// The cells of a column read as numbers.
pub open spec fn int_cells(column: Seq<Seq<char>>) -> Seq<i64> {
    column.map_values(|s: Seq<char>| int_cell(s))
}

/// The script that maps the formula over the numbers handed to it as a
/// JSON array and prints the results as one.
pub open spec fn script_for(formula: Seq<char>) -> Seq<char> {
    "const x = JSON.parse(process.argv[1]); const y = x.map(num => "@ + formula
        + "); console.log(JSON.stringify(y))"@
}

/// The argument handed to the script: the column's numbers as a JSON array.
pub fn formula_input(column: &Vec<String>) -> (r: String)
    ensures
        r@ == json_int_array(int_cells(column.deep_view())),
{
    let mut vals: Vec<i64> = Vec::new();
    let n = column.len();
    for i in 0..n
        invariant
            n == column@.len(),
            vals@ =~= int_cells(column.deep_view()).take(i as int),
    {
        let c = to_chars(column[i].as_str());
        let v = match parse_i64_chars(c.as_slice()) {
            Some(v) => v,
            None => 0,
        };
        assert(v == int_cell(column.deep_view()[i as int]));
        vals.push(v);
        assert(int_cells(column.deep_view()).take(i + 1) =~= int_cells(column.deep_view()).take(i as int).push(v));
    }
    assert(int_cells(column.deep_view()).take(n as int) =~= int_cells(column.deep_view()));
    json_ints(&vals)
}

/// The script that applies the formula.
pub fn formula_script(formula: &str) -> (r: String)
    ensures
        r@ == script_for(formula@),
{
    let mut s = copy_str("const x = JSON.parse(process.argv[1]); const y = x.map(num => ");
    push_str(&mut s, formula);
    push_str(&mut s, "); console.log(JSON.stringify(y))");
    s
}

/// The column's new cells from what the script printed (decoded leniently
/// as UTF-8): its JSON array's items as text; `None` (the column stays)
/// where the output is no JSON array.
pub fn formula_output(stdout: &[u8]) -> (r: Option<Vec<String>>)
    ensures
        match r {
            Some(v) => json_array_items(utf8_lossy_text(stdout@)) == Some(v.deep_view()),
            None => json_array_items(utf8_lossy_text(stdout@)) is None,
        },
{
    let text = utf8_lossy(stdout);
    json_array_cells(text.as_str())
}

} // verus!
