use vstd::prelude::*;
use crate::config::first_index;
use crate::config::lemma_first_index;
use crate::html::{found_or_empty, html_cells, html_cells_of, html_first_text, html_first_text_of, or_empty};
use crate::lib_utils::spec_clean_html;
use crate::lib_utils::rows_html;
use crate::json::{json_grid_at, json_list_at, json_pointer_grid, json_pointer_list, json_pointer_text, json_string_at, opt_row_view};
use crate::lib_utils::{spec_get_tag, LibUtils};
use crate::pattern::{regex_capture, regex_matches, regex_valid, Pattern};
use crate::text::{
    concat, contains, copy_str, lemma_split_nonempty, occurs_at, opt_view, parse_usize,
    parse_usize_chars, push_char, push_str, split, split_str, str_contains, str_eq, to_chars,
    trim, trim_str,
};

verus! {

/// `csv::Error`, carried as an opaque value.
#[verifier::external_type_specification]
#[verifier::external_body]
pub struct ExCsvError(csv::Error);

/// The records that the `csv` crate reads from a text (the first one taken
/// as a header row, and left out, where `has_headers` is set), or `None`
/// where it reports an error.
pub uninterp spec fn csv_read(text: Seq<char>, has_headers: bool) -> Option<Seq<Seq<Seq<char>>>>;

/// All records of a text, the first one among them.
pub open spec fn csv_rows(text: Seq<char>) -> Option<Seq<Seq<Seq<char>>>> {
    csv_read(text, false)
}

/// `csv::ReaderBuilder::new().has_headers(has_headers).from_reader(..).records()`,
/// each record as its fields; the first error ends the reading.
#[verifier::external_body]
pub(crate) fn csv_records(text: &str, has_headers: bool) -> (r: Result<Vec<Vec<String>>, csv::Error>)
    ensures
        match r {
            Ok(v) => csv_read(text@, has_headers) == Some(v.deep_view()),
            Err(_) => csv_read(text@, has_headers) is None,
        },
{
    csv::ReaderBuilder::new().has_headers(has_headers).from_reader(text.as_bytes()).records().map(
        |rec| rec.map(|r| r.iter().map(|f| f.to_string()).collect()),
    ).collect()
}

/// Why a table could not be read.
pub enum ParseError {
    /// The CSV reader reported an error.
    Csv(csv::Error),
    /// A requested filter is not a valid regular expression.
    Pattern(String),
}

/// A table read from a downloaded file, and the columns requested from it.
pub struct Parse {
    /// The header fields.
    pub hd: Vec<String>,
    /// The body cells, row after row.
    pub bd: Vec<String>,
    /// Per request: the formula to apply (empty for none).
    pub opt: Vec<String>,
    /// Per request: the column (`usize::MAX` where the header lacks it).
    pub req: Vec<usize>,
    /// Per request: the pattern a row must match in that column.
    pub tag: Vec<Option<String>>,
    /// Some request filters rows.
    pub check_tag: bool,
    /// Some request has a formula.
    pub check_opt: bool,
}

/// Which `tr` rows a selector picks.
pub enum RowSelection {
    /// These rows, by position.
    Rows(Vec<usize>),
    /// The selector is a CSS selector to apply as it is.
    Css,
}

/// The format of a downloaded file.
pub enum Format {
    Html,
    Json,
    Csv,
}

pub const EQ_PATTERN: &'static str = "tr:eq\\((\\d+)\\)";
pub const GT_PATTERN: &'static str = "tr:gt\\((\\d+)\\)";

// ---------------------------------------------------------------------------
// Specifications.
// ---------------------------------------------------------------------------

pub open spec fn has_char(s: Seq<char>, c: char) -> bool {
    contains(s, seq![c])
}

/// The formula of a request (`formula!field`), empty when it has none.
pub open spec fn req_opt(r: Seq<char>) -> Seq<char> {
    if has_char(r, '!') {
        split(r, '!')[0]
    } else {
        Seq::empty()
    }
}

/// A request without its formula.
pub open spec fn req_rest(r: Seq<char>) -> Seq<char> {
    if has_char(r, '!') {
        split(r, '!')[1]
    } else {
        r
    }
}

/// The alternatives joined with `|`.
pub open spec fn alternatives(parts: Seq<Seq<char>>) -> Seq<char>
    decreases parts.len(),
{
    if parts.len() <= 1 {
        if parts.len() == 1 {
            parts[0]
        } else {
            Seq::empty()
        }
    } else {
        alternatives(parts.drop_last()) + seq!['|'] + parts.last()
    }
}

/// The row filter of a request (`field#p1#p2`: `p1|p2`), if it has one.
pub open spec fn req_tag(r: Seq<char>) -> Option<Seq<char>> {
    let t = req_rest(r);
    if has_char(t, '#') {
        Some(alternatives(split(t, '#').skip(1)))
    } else {
        None
    }
}

/// The field a request names.
pub open spec fn req_field(r: Seq<char>) -> Seq<char> {
    let t = req_rest(r);
    if has_char(t, '#') {
        split(t, '#')[0]
    } else {
        t
    }
}

/// The column of a request, `usize::MAX` where the header lacks it.
pub open spec fn req_index(hd: Seq<Seq<char>>, r: Seq<char>) -> usize {
    match first_index(hd, req_field(r)) {
        Some(i) => i as usize,
        None => usize::MAX,
    }
}

/// The first request whose filter the regex crate rejects.
pub open spec fn first_bad(reqs: Seq<Seq<char>>) -> Option<Seq<char>>
    decreases reqs.len(),
{
    if reqs.len() == 0 {
        None
    } else {
        match first_bad(reqs.drop_last()) {
            Some(p) => Some(p),
            None => match req_tag(reqs.last()) {
                Some(p) => if regex_valid(p) {
                    None
                } else {
                    Some(p)
                },
                None => None,
            },
        }
    }
}

pub open spec fn opt_is_some(o: Option<Seq<char>>) -> bool {
    o is Some
}

/// The table and requests that `Parse::new` sets up.
pub open spec fn parse_matches(p: Parse, hd: Seq<Seq<char>>, bd: Seq<Seq<char>>, reqs: Seq<Seq<char>>) -> bool {
    &&& p.hd.deep_view() == hd
    &&& p.bd.deep_view() == bd
    &&& p.opt@.len() == reqs.len()
    &&& p.req@.len() == reqs.len()
    &&& p.tag@.len() == reqs.len()
    &&& forall|i: int| 0 <= i < reqs.len() ==> #[trigger] p.opt@[i]@ == req_opt(reqs[i])
    &&& forall|i: int| 0 <= i < reqs.len() ==> #[trigger] p.req@[i] == req_index(hd, reqs[i])
    &&& forall|i: int| 0 <= i < reqs.len() ==> #[trigger] opt_view(p.tag@[i]) == req_tag(reqs[i])
    &&& p.check_opt == exists|i: int| 0 <= i < reqs.len() && #[trigger] has_char(reqs[i], '!')
    &&& p.check_tag == exists|i: int| 0 <= i < reqs.len() && opt_is_some(#[trigger] req_tag(reqs[i]))
}

/// The value of a cell as the data reports it: `null` when empty.
pub open spec fn shown(v: Seq<char>) -> Seq<char> {
    if v.len() == 0 {
        "null"@
    } else {
        v
    }
}

/// The request's column holds a real column of the table.
pub open spec fn col_ok(p: Parse, i: int) -> bool {
    p.req@[i] != usize::MAX && p.req@[i] < p.hd@.len()
}

/// The shown cell of request `i` in `row`.
pub open spec fn cell_of(p: Parse, i: int, row: int) -> Seq<char> {
    shown(p.bd@[row * p.hd@.len() + p.req@[i]]@)
}

/// Request `i` picks `row` by its filter.
pub open spec fn hits(p: Parse, i: int, row: int) -> bool {
    &&& col_ok(p, i)
    &&& p.tag@[i] matches Some(t) && regex_valid(t@) && regex_matches(t@, cell_of(p, i, row))
}

/// A row is reported: no request filters, or some filter picks it.
pub open spec fn passes(p: Parse, row: int) -> bool {
    !p.check_tag || exists|i: int| 0 <= i < p.req@.len() && #[trigger] hits(p, i, row)
}

/// What request `i` reports for a row.
pub open spec fn value_of(p: Parse, i: int, row: int) -> Seq<char> {
    if col_ok(p, i) {
        cell_of(p, i, row)
    } else {
        "null"@
    }
}

/// What request `i` reports for the first `n` rows.
pub open spec fn column_of(p: Parse, i: int, n: nat) -> Seq<Seq<char>>
    decreases n,
{
    if n == 0 {
        Seq::empty()
    } else {
        let rest = column_of(p, i, (n - 1) as nat);
        if passes(p, n - 1) {
            rest.push(value_of(p, i, n - 1))
        } else {
            rest
        }
    }
}

/// The number of whole rows in the body.
pub open spec fn row_count(p: Parse) -> nat {
    if p.hd@.len() == 0 {
        0
    } else {
        (p.bd@.len() / p.hd@.len()) as nat
    }
}

/// The index that a selector capture stands for (0 when it is no number).
pub open spec fn captured_index(c: Option<(Seq<char>, Option<Seq<char>>)>) -> nat {
    match c {
        Some((_, Some(g))) => match parse_usize(g) {
            Some(k) => k as nat,
            None => 0,
        },
        _ => 0,
    }
}

pub open spec fn capture_of(pattern: Seq<char>, s: Seq<char>) -> Option<(Seq<char>, Option<Seq<char>>)> {
    if regex_valid(pattern) {
        regex_capture(pattern, s)
    } else {
        None
    }
}

/// The rows a selector picks out of `n`: `tr:eq(k)` the row `k`, `tr:gt(k)`
/// the rows after `k`, anything else a CSS selector.
pub open spec fn selection(sel: Seq<char>, n: nat) -> Option<Seq<nat>> {
    let eq = capture_of(EQ_PATTERN@, sel);
    let gt = capture_of(GT_PATTERN@, sel);
    if eq is Some {
        let k = captured_index(eq);
        Some(if k < n { seq![k] } else { Seq::empty() })
    } else if gt is Some {
        let k = captured_index(gt);
        Some(if k + 1 < n { Seq::new((n - k - 1) as nat, |j: int| (k + 1 + j) as nat) } else { Seq::empty() })
    } else {
        None
    }
}

/// A row's cells, trimmed.
pub open spec fn trimmed(row: Seq<Seq<char>>) -> Seq<Seq<char>> {
    row.map_values(|c: Seq<char>| trim(c))
}

/// All rows' cells trimmed, row after row.
pub open spec fn trimmed_cells(rows: Seq<Seq<Seq<char>>>) -> Seq<Seq<char>>
    decreases rows.len(),
{
    if rows.len() == 0 {
        Seq::empty()
    } else {
        trimmed_cells(rows.drop_last()) + trimmed(rows.last())
    }
}

/// A JSON item as a cell: its string, else empty.
pub open spec fn item_text(o: Option<Seq<char>>) -> Seq<char> {
    match o {
        Some(s) => s,
        None => Seq::empty(),
    }
}

pub open spec fn items_text(items: Seq<Option<Seq<char>>>) -> Seq<Seq<char>> {
    items.map_values(|o: Option<Seq<char>>| item_text(o))
}

/// The cells of all array rows, row after row.
pub open spec fn grid_cells(rows: Seq<Option<Seq<Option<Seq<char>>>>>) -> Seq<Seq<char>>
    decreases rows.len(),
{
    if rows.len() == 0 {
        Seq::empty()
    } else {
        grid_cells(rows.drop_last()) + match rows.last() {
            Some(cells) => items_text(cells),
            None => Seq::empty(),
        }
    }
}

/// The site tag of a JSON file: its `tag` string, else empty.
pub open spec fn json_tag(text: Seq<char>) -> Seq<char> {
    item_text(json_pointer_text(text, "/tag"@))
}

/// The header and body of a JSON file, at the pointers its rules name.
pub open spec fn json_table(text: Seq<char>, rules: Option<Seq<char>>) -> (Seq<Seq<char>>, Seq<Seq<char>>) {
    let tag = json_tag(text);
    let head = seq!['/'] + spec_get_tag(rules, tag + "/head/JSON"@);
    let body = seq!['/'] + spec_get_tag(rules, tag + "/body/JSON"@);
    let hd = match json_pointer_list(text, head) {
        Some(items) => items_text(items),
        None => Seq::empty(),
    };
    let bd = match json_pointer_grid(text, body) {
        Some(rows) => grid_cells(rows),
        None => Seq::empty(),
    };
    (hd, bd)
}

/// The text cells of the rows a selector picks: `tr:eq`/`tr:gt` rows by
/// position among all `tr` rows, else the elements the CSS selector picks,
/// else (a selector that does not parse) all `tr` rows.
pub open spec fn picked_rows(sel: Seq<char>, all: Seq<Seq<Seq<char>>>, cleaned: Seq<char>) -> Seq<Seq<Seq<char>>> {
    match selection(sel, all.len()) {
        Some(idx) => idx.map_values(|k: nat| all[k as int]),
        None => match html_cells_of(cleaned, sel, "td, th"@) {
            Some(rows) => rows,
            None => all,
        },
    }
}

/// The cleaned markup of an HTML file.
pub open spec fn cleaned_html(file: Seq<char>) -> Seq<char> {
    spec_clean_html(file)
}

/// The header and body of an HTML file: its markup cleaned, the site tag
/// (the text of its `tag` element) choosing through the parse rules the
/// selectors of the header rows and the body rows; the header is the first
/// header row's cells, the body all body cells, trimmed.
pub open spec fn html_file_table(file: Seq<char>, rules: Option<Seq<char>>) -> (Seq<Seq<char>>, Seq<Seq<char>>) {
    let cleaned = cleaned_html(file);
    let tag = found_or_empty(html_first_text_of(cleaned, "tag"@));
    let all = or_empty(html_cells_of(cleaned, "tr"@, "td, th"@));
    let head = picked_rows(spec_get_tag(rules, tag + "/head/HTML"@), all, cleaned);
    let body = picked_rows(spec_get_tag(rules, tag + "/body/HTML"@), all, cleaned);
    (
        if head.len() > 0 {
            trimmed(head[0])
        } else {
            Seq::empty()
        },
        trimmed_cells(body),
    )
}

/// The header and body of a CSV file: the first record and the rest.
pub open spec fn csv_table(rows: Seq<Seq<Seq<char>>>) -> (Seq<Seq<char>>, Seq<Seq<char>>) {
    if rows.len() == 0 {
        (Seq::empty(), Seq::empty())
    } else {
        (rows[0], concat_rows(rows.drop_first()))
    }
}

/// All fields, record after record.
pub open spec fn concat_rows(rows: Seq<Seq<Seq<char>>>) -> Seq<Seq<char>>
    decreases rows.len(),
{
    if rows.len() == 0 {
        Seq::empty()
    } else {
        concat_rows(rows.drop_last()) + rows.last()
    }
}

// ---------------------------------------------------------------------------
// Laws and lemmas.
// ---------------------------------------------------------------------------

/// Every requested column reports the same rows, so all columns have one
/// length.
pub proof fn law_columns_aligned(p: Parse, i: int, j: int, n: nat)
    ensures
        column_of(p, i, n).len() == column_of(p, j, n).len(),
    decreases n,
{
    if n > 0 {
        law_columns_aligned(p, i, j, (n - 1) as nat);
    }
}

/// Without row filters every row is reported, in order.
pub proof fn law_unfiltered_rows(p: Parse, i: int, n: nat)
    requires
        !p.check_tag,
    ensures
        column_of(p, i, n).len() == n,
        forall|k: int| 0 <= k < n ==> #[trigger] column_of(p, i, n)[k] == value_of(p, i, k),
    decreases n,
{
    if n > 0 {
        law_unfiltered_rows(p, i, (n - 1) as nat);
        let prev = column_of(p, i, (n - 1) as nat);
        assert(column_of(p, i, n) == prev.push(value_of(p, i, n - 1)));
        assert forall|k: int| 0 <= k < n implies #[trigger] column_of(p, i, n)[k] == value_of(p, i, k) by {
            if k < n - 1 {
                assert(column_of(p, i, n)[k] == prev[k]);
            }
        }
    }
}

/// A text that holds the separator splits into at least two pieces.
pub proof fn lemma_split_has_two(s: Seq<char>, c: char)
    requires
        has_char(s, c),
    ensures
        split(s, c).len() >= 2,
    decreases s.len(),
{
    let i = choose|i: int| occurs_at(s, seq![c], i);
    assert(s.subrange(i, i + 1)[0] == s[i]);
    lemma_split_nonempty(s.drop_last(), c);
    if s.last() != c {
        assert(i < s.len() - 1);
        assert(s.drop_last().subrange(i, i + 1) =~= s.subrange(i, i + 1));
        assert(occurs_at(s.drop_last(), seq![c], i));
        lemma_split_has_two(s.drop_last(), c);
    }
}

/// A rejected filter among the first requests is the first rejected one of all.
pub proof fn lemma_first_bad_prefix(s: Seq<Seq<char>>, j: int)
    requires
        0 <= j <= s.len(),
        first_bad(s.take(j)) is Some,
    ensures
        first_bad(s) == first_bad(s.take(j)),
    decreases s.len() - j,
{
    if j < s.len() {
        assert(s.take(j) =~= s.drop_last().take(j));
        lemma_first_bad_prefix(s.drop_last(), j);
    } else {
        assert(s.take(j) =~= s);
    }
}

/// A cell of a whole row lies inside the body.
pub proof fn lemma_cell_index(row: int, idx: int, rs: int, len: int)
    requires
        rs > 0,
        0 <= row < len / rs,
        0 <= idx < rs,
        len >= 0,
    ensures
        0 <= row * rs + idx < len,
{
    assert(row * rs + idx < (row + 1) * rs) by (nonlinear_arith)
        requires
            idx < rs,
    ;
    assert((row + 1) * rs <= (len / rs) * rs) by (nonlinear_arith)
        requires
            row + 1 <= len / rs,
            rs > 0,
    ;
    assert((len / rs) * rs <= len) by (nonlinear_arith)
        requires
            rs > 0,
            len >= 0,
    ;
    assert(0 <= row * rs) by (nonlinear_arith)
        requires
            row >= 0,
            rs > 0,
    ;
}

// ---------------------------------------------------------------------------
// Implementation.
// ---------------------------------------------------------------------------

/// The header and body that a downloaded file reads as; `None` where it
/// is CSV that the reader rejects.
pub open spec fn file_table(file: Seq<char>, rules: Option<Seq<char>>) -> Option<(Seq<Seq<char>>, Seq<Seq<char>>)> {
    match Parse::format_of_spec(file) {
        Format::Html => Some(html_file_table(file, rules)),
        Format::Json => Some(json_table(file, rules)),
        Format::Csv => match csv_rows(file) {
            Some(rows) => Some(csv_table(rows)),
            None => None,
        },
    }
}

impl Parse {
    /// The format a file is read in.
    pub open spec fn format_of_spec(file: Seq<char>) -> Format {
        if crate::lib_utils::spec_is_html(file) {
            Format::Html
        } else if crate::json::json_parses(file) {
            Format::Json
        } else {
            Format::Csv
        }
    }

    /// How a file is read: as HTML, as JSON, or as CSV.
    pub fn format_of(file: &str) -> (r: Format)
        ensures
            r == Self::format_of_spec(file@),
    {
        if LibUtils::is_html(file) {
            Format::Html
        } else if LibUtils::is_json(file) {
            Format::Json
        } else {
            Format::Csv
        }
    }

    fn items(items: &Vec<Option<String>>) -> (r: Vec<String>)
        ensures
            r.deep_view() == items_text(crate::json::opt_list_view(items@)),
    {
        let mut out: Vec<String> = Vec::new();
        let n = items.len();
        for i in 0..n
            invariant
                n == items@.len(),
                out@.len() == i,
                forall|k: int| 0 <= k < i ==> #[trigger] out@[k]@ == item_text(opt_view(items@[k])),
        {
            match &items[i] {
                Some(s) => out.push(copy_str(s.as_str())),
                None => out.push(String::new()),
            }
        }
        assert(out.deep_view() =~= items_text(crate::json::opt_list_view(items@)));
        out
    }

    /// The header and body of a JSON file: the site tag (its `tag` string)
    /// chooses, through the parse rules, the pointers of the header array
    /// and of the body's array of rows; items that are no strings count as
    /// empty and rows that are no arrays are left out.
    pub fn json_table(file: &str, rules: &Option<String>) -> (r: (Vec<String>, Vec<String>))
        ensures
            (r.0.deep_view(), r.1.deep_view()) == json_table(file@, opt_view(*rules)),
    {
        proof {
            reveal_strlit("/tag");
            reveal_strlit("/head/JSON");
            reveal_strlit("/body/JSON");
        }
        let tag = match json_string_at(file, "/tag") {
            Some(t) => t,
            None => String::new(),
        };
        let mut hk = copy_str(tag.as_str());
        push_str(&mut hk, "/head/JSON");
        let mut bk = copy_str(tag.as_str());
        push_str(&mut bk, "/body/JSON");
        let hrule = LibUtils::get_tag(rules, hk.as_str());
        let brule = LibUtils::get_tag(rules, bk.as_str());
        let mut hp = String::new();
        push_char(&mut hp, '/');
        push_str(&mut hp, hrule.as_str());
        let mut bp = String::new();
        push_char(&mut bp, '/');
        push_str(&mut bp, brule.as_str());
        let hd = match json_list_at(file, hp.as_str()) {
            Some(items) => Self::items(&items),
            None => Vec::new(),
        };
        let mut bd: Vec<String> = Vec::new();
        match json_grid_at(file, bp.as_str()) {
            Some(rows) => {
                let ghost g = rows@.map_values(|row: Option<Vec<Option<String>>>| opt_row_view(row));
                let n = rows.len();
                for i in 0..n
                    invariant
                        n == rows@.len(),
                        g == rows@.map_values(|row: Option<Vec<Option<String>>>| opt_row_view(row)),
                        bd.deep_view() =~= grid_cells(g.take(i as int)),
                {
                    proof {
                        assert(g.take(i + 1).drop_last() =~= g.take(i as int));
                    }
                    match &rows[i] {
                        Some(cells) => {
                            let mut c = Self::items(cells);
                            let ghost before = bd.deep_view();
                            bd.append(&mut c);
                            assert(bd.deep_view() =~= before + items_text(crate::json::opt_list_view(cells@)));
                        },
                        None => {},
                    }
                }
                assert(g.take(n as int) =~= g);
            },
            None => {},
        }
        assert(hd.deep_view() =~= json_table(file@, opt_view(*rules)).0);
        (hd, bd)
    }

    /// The header and body of a CSV file: its first record, then all
    /// fields of the rest, record after record.
    pub fn csv_table(file: &str) -> (r: Result<(Vec<String>, Vec<String>), ParseError>)
        ensures
            match r {
                Ok((hd, bd)) => csv_rows(file@) matches Some(rows) && (hd.deep_view(), bd.deep_view())
                    == csv_table(rows),
                Err(e) => csv_rows(file@) is None && e is Csv,
            },
    {
        match csv_records(file, false) {
            Err(e) => Err(ParseError::Csv(e)),
            Ok(rows) => {
                let ghost rv = rows.deep_view();
                if rows.len() == 0 {
                    return Ok((Vec::new(), Vec::new()));
                }
                let mut hd: Vec<String> = Vec::new();
                let n0 = rows[0].len();
                for k in 0..n0
                    invariant
                        n0 == rows@[0]@.len(),
                        rows@.len() > 0,
                        hd@.len() == k,
                        forall|j: int| 0 <= j < k ==> #[trigger] hd@[j]@ == rows@[0]@[j]@,
                {
                    hd.push(copy_str(rows[0][k].as_str()));
                }
                assert(hd.deep_view() =~= rv[0]);
                let mut bd: Vec<String> = Vec::new();
                let n = rows.len();
                for i in 1..n
                    invariant
                        n == rows@.len(),
                        rv == rows.deep_view(),
                        bd.deep_view() =~= concat_rows(rv.drop_first().take(i - 1)),
                {
                    proof {
                        assert(rv.drop_first().take(i as int).drop_last() =~= rv.drop_first().take(i - 1));
                        assert(rv.drop_first().take(i as int).last() == rv[i as int]);
                    }
                    let m = rows[i].len();
                    let ghost before = bd.deep_view();
                    for k in 0..m
                        invariant
                            m == rows@[i as int]@.len(),
                            i < rows@.len(),
                            bd.deep_view() =~= before + rows@[i as int]@.take(k as int).map_values(
                                |s: String| s@,
                            ),
                    {
                        let ghost b0 = bd.deep_view();
                        let cell = copy_str(rows[i][k].as_str());
                        bd.push(cell);
                        assert(bd.deep_view() =~= b0.push(rows@[i as int]@[k as int]@));
                        assert(rows@[i as int]@.take(k + 1).map_values(|s: String| s@) =~= rows@[i as int]@.take(
                            k as int,
                        ).map_values(|s: String| s@).push(rows@[i as int]@[k as int]@));
                    }
                    assert(rows@[i as int]@.take(m as int).map_values(|s: String| s@) =~= rv[i as int]);
                }
                assert(rv.drop_first().take(n - 1) =~= rv.drop_first());
                Ok((hd, bd))
            },
        }
    }

    /// The text cells of the rows a selector picks.
    fn rows_for(sel: &str, all: &Vec<Vec<String>>, cleaned: &str) -> (r: Vec<Vec<String>>)
        ensures
            r.deep_view() == picked_rows(sel@, all.deep_view(), cleaned@),
    {
        let ghost av = all.deep_view();
        match Self::select_tr(sel, all.len()) {
            RowSelection::Rows(idx) => {
                let ghost want = picked_rows(sel@, av, cleaned@);
                proof {
                    let sv = selection(sel@, all@.len() as nat).unwrap();
                    assert forall|j: int| 0 <= j < idx@.len() implies #[trigger] idx@[j] < all@.len() by {
                        assert(idx@.map_values(|x: usize| x as nat)[j] == idx@[j] as nat);
                        assert(sv[j] < all@.len());
                    }
                }
                let mut out: Vec<Vec<String>> = Vec::new();
                let n = idx.len();
                for i in 0..n
                    invariant
                        n == idx@.len(),
                        av == all.deep_view(),
                        forall|j: int| 0 <= j < n ==> #[trigger] idx@[j] < all@.len(),
                        want == idx@.map_values(|x: usize| x as nat).map_values(|k: nat| av[k as int]),
                        out.deep_view() =~= want.take(i as int),
                {
                    let k = idx[i];
                    let mut row: Vec<String> = Vec::new();
                    let m = all[k].len();
                    for j in 0..m
                        invariant
                            m == all@[k as int]@.len(),
                            k < all@.len(),
                            row.deep_view() =~= all@[k as int].deep_view().take(j as int),
                    {
                        row.push(copy_str(all[k][j].as_str()));
                        assert(all@[k as int].deep_view().take(j + 1) =~= all@[k as int].deep_view().take(
                            j as int,
                        ).push(all@[k as int]@[j as int]@));
                    }
                    assert(all@[k as int].deep_view().take(m as int) =~= all@[k as int].deep_view());
                    let ghost before = out.deep_view();
                    out.push(row);
                    assert(out.deep_view() =~= before.push(av[k as int]));
                    assert(want.take(i + 1) =~= want.take(i as int).push(av[k as int]));
                }
                assert(want.take(n as int) =~= want);
                out
            },
            RowSelection::Css => match html_cells(cleaned, sel, "td, th") {
                Some(rows) => rows,
                None => {
                    let mut out: Vec<Vec<String>> = Vec::new();
                    let n = all.len();
                    for i in 0..n
                        invariant
                            n == all@.len(),
                            av == all.deep_view(),
                            out.deep_view() =~= av.take(i as int),
                    {
                        let mut row: Vec<String> = Vec::new();
                        let m = all[i].len();
                        for j in 0..m
                            invariant
                                m == all@[i as int]@.len(),
                                i < all@.len(),
                                row.deep_view() =~= all@[i as int].deep_view().take(j as int),
                        {
                            row.push(copy_str(all[i][j].as_str()));
                            assert(all@[i as int].deep_view().take(j + 1) =~= all@[i as int].deep_view().take(
                                j as int,
                            ).push(all@[i as int]@[j as int]@));
                        }
                        assert(all@[i as int].deep_view().take(m as int) =~= all@[i as int].deep_view());
                        let ghost before = out.deep_view();
                        out.push(row);
                        assert(out.deep_view() =~= before.push(av[i as int]));
                    }
                    out
                },
            },
        }
    }

    /// The header and body of an HTML file (see `html_file_table`).
    pub fn html_file(file: &str, rules: &Option<String>) -> (r: (Vec<String>, Vec<String>))
        ensures
            (r.0.deep_view(), r.1.deep_view()) == html_file_table(file@, opt_view(*rules)),
    {
        proof {
            reveal_strlit("/head/HTML");
            reveal_strlit("/body/HTML");
        }
        let cleaned = LibUtils::clean_html(file);
        let tag = match html_first_text(cleaned.as_str(), "tag") {
            Some(Some(t)) => t,
            _ => String::new(),
        };
        let all = match html_cells(cleaned.as_str(), "tr", "td, th") {
            Some(all) => all,
            None => Vec::new(),
        };
        assert(all.deep_view() =~= or_empty(html_cells_of(cleaned@, "tr"@, "td, th"@)));
        assert(tag@ == found_or_empty(html_first_text_of(cleaned@, "tag"@)));
        let mut hk = copy_str(tag.as_str());
        push_str(&mut hk, "/head/HTML");
        let mut bk = copy_str(tag.as_str());
        push_str(&mut bk, "/body/HTML");
        let hs = LibUtils::get_tag(rules, hk.as_str());
        let bs = LibUtils::get_tag(rules, bk.as_str());
        let head = Self::rows_for(hs.as_str(), &all, cleaned.as_str());
        let body = Self::rows_for(bs.as_str(), &all, cleaned.as_str());
        Self::html_table(&head, &body)
    }

    /// The header and body of a downloaded file, read by its format.
    pub fn table_of(file: &str, rules: &Option<String>) -> (r: Result<(Vec<String>, Vec<String>), ParseError>)
        ensures
            match file_table(file@, opt_view(*rules)) {
                Some(t) => r matches Ok((hd, bd)) && (hd.deep_view(), bd.deep_view()) == t,
                None => r matches Err(ParseError::Csv(_)),
            },
    {
        match Self::format_of(file) {
            Format::Html => Ok(Self::html_file(file, rules)),
            Format::Json => Ok(Self::json_table(file, rules)),
            Format::Csv => Self::csv_table(file),
        }
    }

    /// The table of a downloaded file with the requested columns set up:
    /// the file read by its format, then the requests as `Parse::from_table` reads
    /// them.
    pub fn new(file: &str, rules: &Option<String>, req_in: &Vec<String>) -> (r: Result<Parse, ParseError>)
        ensures
            match file_table(file@, opt_view(*rules)) {
                Some((hd, bd)) => match first_bad(req_in.deep_view()) {
                    Some(bad) => r matches Err(ParseError::Pattern(p)) && p@ == bad,
                    None => r matches Ok(p) && parse_matches(p, hd, bd, req_in.deep_view()),
                },
                None => r matches Err(ParseError::Csv(_)),
            },
    {
        match Self::table_of(file, rules) {
            Ok((hd, bd)) => Self::from_table(hd, bd, req_in),
            Err(e) => Err(e),
        }
    }

    /// The header and body of an HTML table from the cell texts of its
    /// header rows and body rows: the first header row's cells, and all body
    /// cells row after row, each trimmed.
    pub fn html_table(head: &Vec<Vec<String>>, body: &Vec<Vec<String>>) -> (r: (Vec<String>, Vec<String>))
        ensures
            r.0.deep_view() == (if head@.len() > 0 {
                trimmed(head.deep_view()[0])
            } else {
                Seq::empty()
            }),
            r.1.deep_view() == trimmed_cells(body.deep_view()),
    {
        let hd = if head.len() > 0 {
            Self::trim_all(&head[0])
        } else {
            Vec::new()
        };
        let mut bd: Vec<String> = Vec::new();
        let n = body.len();
        for i in 0..n
            invariant
                n == body@.len(),
                bd.deep_view() =~= trimmed_cells(body.deep_view().take(i as int)),
        {
            proof {
                let b = body.deep_view();
                assert(b.take(i + 1).drop_last() =~= b.take(i as int));
                assert(b.take(i + 1).last() == body@[i as int].deep_view());
            }
            let mut t = Self::trim_all(&body[i]);
            bd.append(&mut t);
        }
        assert(body.deep_view().take(n as int) =~= body.deep_view());
        (hd, bd)
    }

    fn trim_all(row: &Vec<String>) -> (r: Vec<String>)
        ensures
            r.deep_view() == trimmed(row.deep_view()),
    {
        let mut out: Vec<String> = Vec::new();
        let n = row.len();
        for i in 0..n
            invariant
                n == row@.len(),
                out@.len() == i,
                forall|k: int| 0 <= k < i ==> #[trigger] out@[k]@ == trim(row@[k]@),
        {
            out.push(trim_str(row[i].as_str()));
        }
        assert(out.deep_view() =~= trimmed(row.deep_view()));
        out
    }

    fn captured_index(c: &Option<(String, Option<String>)>) -> (r: usize)
        ensures
            r as nat == captured_index(match c {
                Some(x) => Some((x.0@, opt_view(x.1))),
                None => None,
            }),
    {
        match c {
            Some((_, Some(g))) => {
                let v = to_chars(g.as_str());
                match parse_usize_chars(v.as_slice()) {
                    Some(k) => k,
                    None => 0,
                }
            },
            _ => 0,
        }
    }

    fn capture(pattern: &str, sel: &str) -> (r: Option<(String, Option<String>)>)
        ensures
            match r {
                Some(x) => capture_of(pattern@, sel@) == Some((x.0@, opt_view(x.1))),
                None => capture_of(pattern@, sel@) is None,
            },
    {
        match Pattern::compile(pattern) {
            Some(p) => p.captures(sel),
            None => None,
        }
    }

    /// The `tr` rows (out of `n`) that a selector picks, or that it is a CSS
    /// selector to apply as it is.
    pub fn select_tr(selector: &str, n: usize) -> (r: RowSelection)
        ensures
            match selection(selector@, n as nat) {
                Some(rows) => r matches RowSelection::Rows(v) && v@.map_values(|x: usize| x as nat)
                    == rows,
                None => r is Css,
            },
    {
        let eq = Self::capture(EQ_PATTERN, selector);
        if eq.is_some() {
            let k = Self::captured_index(&eq);
            let mut v: Vec<usize> = Vec::new();
            if k < n {
                v.push(k);
            }
            assert(v@.map_values(|x: usize| x as nat) =~= selection(selector@, n as nat).unwrap());
            return RowSelection::Rows(v);
        }
        let gt = Self::capture(GT_PATTERN, selector);
        if gt.is_some() {
            let k = Self::captured_index(&gt);
            let mut v: Vec<usize> = Vec::new();
            if k < n && k + 1 < n {
                let mut j = k + 1;
                while j < n
                    invariant
                        k + 1 <= j <= n,
                        v@.len() == j - k - 1,
                        forall|a: int| 0 <= a < v@.len() ==> #[trigger] v@[a] == k + 1 + a,
                    decreases n - j,
                {
                    v.push(j);
                    j = j + 1;
                }
            }
            assert(v@.map_values(|x: usize| x as nat) =~= selection(selector@, n as nat).unwrap());
            return RowSelection::Rows(v);
        }
        RowSelection::Css
    }

    /// A request split into its formula, its row filter and its field.
    pub fn split_request(r: &str) -> (out: (String, Option<String>, String))
        ensures
            out.0@ == req_opt(r@),
            opt_view(out.1) == req_tag(r@),
            out.2@ == req_field(r@),
    {
        let rest = if str_contains(r, "!") {
            proof {
                reveal_strlit("!");
                assert(("!")@ =~= seq!['!']);
                lemma_split_has_two(r@, '!');
            }
            let parts = split_str(r, '!');
            (copy_str(parts[0].as_str()), copy_str(parts[1].as_str()))
        } else {
            proof {
                reveal_strlit("!");
                assert(("!")@ =~= seq!['!']);
            }
            (String::new(), copy_str(r))
        };
        let (opt, t) = rest;
        if str_contains(t.as_str(), "#") {
            proof {
                reveal_strlit("#");
                assert(("#")@ =~= seq!['#']);
                lemma_split_has_two(t@, '#');
            }
            let parts = split_str(t.as_str(), '#');
            let mut alt = copy_str(parts[1].as_str());
            let n = parts.len();
            let ghost tail = split(t@, '#').skip(1);
            assert(tail.take(1) =~= seq![tail[0]]);
            for k in 2..n
                invariant
                    n == parts@.len(),
                    n == split(t@, '#').len(),
                    tail == split(t@, '#').skip(1),
                    forall|j: int| 0 <= j < n ==> #[trigger] parts@[j]@ == split(t@, '#')[j],
                    alt@ == alternatives(tail.take(k - 1)),
            {
                proof {
                    assert(tail.take(k as int).drop_last() =~= tail.take(k - 1));
                    assert(tail.take(k as int).last() == parts@[k as int]@);
                }
                push_char(&mut alt, '|');
                push_str(&mut alt, parts[k].as_str());
            }
            assert(tail.take(n - 1) =~= tail);
            (opt, Some(alt), copy_str(parts[0].as_str()))
        } else {
            proof {
                reveal_strlit("#");
                assert(("#")@ =~= seq!['#']);
            }
            (opt, None, t)
        }
    }

    /// The table with the requested columns: each request is
    /// `[formula!]field[#pattern#...]`; its column is where the header names
    /// the field (`usize::MAX` where it does not). A filter that is not a
    /// valid regular expression is an error.
    pub fn from_table(hd: Vec<String>, bd: Vec<String>, req_in: &Vec<String>) -> (r: Result<Parse, ParseError>)
        ensures
            match first_bad(req_in.deep_view()) {
                Some(bad) => r matches Err(ParseError::Pattern(p)) && p@ == bad,
                None => r matches Ok(p) && parse_matches(p, hd.deep_view(), bd.deep_view(), req_in.deep_view()),
            },
    {
        let ghost reqs = req_in.deep_view();
        let ghost hv = hd.deep_view();
        let mut opt: Vec<String> = Vec::new();
        let mut req: Vec<usize> = Vec::new();
        let mut tag: Vec<Option<String>> = Vec::new();
        let mut check_tag = false;
        let mut check_opt = false;
        let n = req_in.len();
        for i in 0..n
            invariant
                n == req_in@.len(),
                reqs == req_in.deep_view(),
                hv == hd.deep_view(),
                first_bad(reqs.take(i as int)) is None,
                opt@.len() == i,
                req@.len() == i,
                tag@.len() == i,
                forall|k: int| 0 <= k < i ==> #[trigger] opt@[k]@ == req_opt(reqs[k]),
                forall|k: int| 0 <= k < i ==> #[trigger] req@[k] == req_index(hv, reqs[k]),
                forall|k: int| 0 <= k < i ==> #[trigger] opt_view(tag@[k]) == req_tag(reqs[k]),
                check_opt == exists|k: int| 0 <= k < i && #[trigger] has_char(reqs[k], '!'),
                check_tag == exists|k: int| 0 <= k < i && opt_is_some(#[trigger] req_tag(reqs[k])),
        {
            proof {
                assert(reqs.take(i + 1).drop_last() =~= reqs.take(i as int));
                assert(reqs.take(i + 1).last() == reqs[i as int]);
                assert(reqs[i as int] == req_in@[i as int]@);
            }
            let (o, t, field) = Self::split_request(req_in[i].as_str());
            if str_contains(req_in[i].as_str(), "!") {
                check_opt = true;
            }
            proof {
                reveal_strlit("!");
                assert(("!")@ =~= seq!['!']);
            }
            match &t {
                Some(pat) => {
                    if Pattern::compile(pat.as_str()).is_none() {
                        assert(first_bad(reqs.take(i + 1)) == Some(pat@));
                        proof {
                            lemma_first_bad_prefix(reqs, i + 1);
                        }
                        return Err(ParseError::Pattern(copy_str(pat.as_str())));
                    }
                    check_tag = true;
                },
                None => {},
            }
            let idx = match Self::position(&hd, field.as_str()) {
                Some(k) => k,
                None => usize::MAX,
            };
            opt.push(o);
            req.push(idx);
            tag.push(t);
        }
        assert(reqs.take(n as int) =~= reqs);
        Ok(Parse { hd, bd, opt, req, tag, check_tag, check_opt })
    }

    fn position(hd: &Vec<String>, field: &str) -> (r: Option<usize>)
        ensures
            match r {
                Some(k) => first_index(hd.deep_view(), field@) == Some(k as int),
                None => first_index(hd.deep_view(), field@) is None,
            },
    {
        proof {
            lemma_first_index(hd.deep_view(), field@);
        }
        let n = hd.len();
        for i in 0..n
            invariant
                n == hd@.len(),
                forall|j: int| 0 <= j < i ==> hd.deep_view()[j] != field@,
                match first_index(hd.deep_view(), field@) {
                    Some(k) => 0 <= k < n && hd.deep_view()[k] == field@ && forall|j: int|
                        0 <= j < k ==> hd.deep_view()[j] != field@,
                    None => forall|j: int| 0 <= j < n ==> hd.deep_view()[j] != field@,
                },
        {
            assert(hd.deep_view()[i as int] == hd@[i as int]@);
            if str_eq(hd[i].as_str(), field) {
                return Some(i);
            }
        }
        None
    }

    /// The filters compiled, `None` where a request has none or it is rejected.
    fn compiled(&self) -> (r: Vec<Option<Pattern>>)
        ensures
            r@.len() == self.tag@.len(),
            forall|i: int| 0 <= i < self.tag@.len() ==> match #[trigger] r@[i] {
                Some(p) => self.tag@[i] matches Some(t) && regex_valid(t@) && p@ == t@,
                None => !(self.tag@[i] matches Some(t) && regex_valid(t@)),
            },
    {
        let mut out: Vec<Option<Pattern>> = Vec::new();
        let n = self.tag.len();
        for i in 0..n
            invariant
                n == self.tag@.len(),
                out@.len() == i,
                forall|k: int| 0 <= k < i ==> match #[trigger] out@[k] {
                    Some(p) => self.tag@[k] matches Some(t) && regex_valid(t@) && p@ == t@,
                    None => !(self.tag@[k] matches Some(t) && regex_valid(t@)),
                },
        {
            match &self.tag[i] {
                Some(t) => out.push(Pattern::compile(t.as_str())),
                None => out.push(None),
            }
        }
        out
    }

    fn shown(v: &str) -> (r: String)
        ensures
            r@ == shown(v@),
    {
        proof {
            reveal_strlit("null");
        }
        if v.is_empty() {
            copy_str("null")
        } else {
            copy_str(v)
        }
    }

    /// Whether a row is reported.
    fn row_passes(&self, row: usize, compiled: &Vec<Option<Pattern>>) -> (r: bool)
        requires
            self.hd@.len() > 0,
            row < self.bd@.len() / self.hd@.len(),
            self.tag@.len() == self.req@.len(),
            compiled@.len() == self.tag@.len(),
            forall|i: int| 0 <= i < self.tag@.len() ==> match #[trigger] compiled@[i] {
                Some(p) => self.tag@[i] matches Some(t) && regex_valid(t@) && p@ == t@,
                None => !(self.tag@[i] matches Some(t) && regex_valid(t@)),
            },
        ensures
            r == passes(*self, row as int),
    {
        if !self.check_tag {
            return true;
        }
        let rs = self.hd.len();
        let n = self.req.len();
        for i in 0..n
            invariant
                n == self.req@.len(),
                rs == self.hd@.len(),
                rs > 0,
                row < self.bd@.len() / (rs as nat),
                self.tag@.len() == n,
                compiled@.len() == n,
                forall|k: int| 0 <= k < n ==> match #[trigger] compiled@[k] {
                    Some(p) => self.tag@[k] matches Some(t) && regex_valid(t@) && p@ == t@,
                    None => !(self.tag@[k] matches Some(t) && regex_valid(t@)),
                },
                forall|k: int| 0 <= k < i ==> !hits(*self, k, row as int),
        {
            let idx = self.req[i];
            if idx != usize::MAX && idx < rs {
                let bl = self.bd.len();
                proof {
                    lemma_cell_index(row as int, idx as int, rs as int, bl as int);
                }
                let off = row * rs + idx;
                let cell = Self::shown(self.bd[off].as_str());
                match &compiled[i] {
                    Some(p) => {
                        if p.is_match(cell.as_str()) {
                            assert(hits(*self, i as int, row as int));
                            return true;
                        }
                    },
                    None => {},
                }
            }
        }
        false
    }

    /// The requested columns: for each request, what it reports for each
    /// row that passes the filters (a row passes when no request filters,
    /// or when some request's pattern matches its cell); empty cells and
    /// missing columns read `null`. Formulas are not applied here.
    pub fn data(&self) -> (r: Vec<Vec<String>>)
        requires
            self.tag@.len() == self.req@.len(),
        ensures
            r@.len() == self.req@.len(),
            forall|i: int| 0 <= i < self.req@.len() ==> #[trigger] r@[i].deep_view() == column_of(
                *self,
                i,
                row_count(*self),
            ),
    {
        let n = self.req.len();
        let mut out: Vec<Vec<String>> = Vec::new();
        if self.hd.len() == 0 {
            for i in 0..n
                invariant
                    n == self.req@.len(),
                    self.hd@.len() == 0,
                    out@.len() == i,
                    forall|k: int| 0 <= k < i ==> #[trigger] out@[k].deep_view() == column_of(*self, k, row_count(*self)),
            {
                let v: Vec<String> = Vec::new();
                assert(v.deep_view() =~= column_of(*self, i as int, 0));
                out.push(v);
            }
            return out;
        }
        let rs = self.hd.len();
        let rows = self.bd.len() / rs;
        let compiled = self.compiled();
        let mut pass: Vec<bool> = Vec::new();
        for row in 0..rows
            invariant
                rs == self.hd@.len(),
                rs > 0,
                rows == self.bd@.len() / (rs as nat),
                self.tag@.len() == self.req@.len(),
                compiled@.len() == self.tag@.len(),
                forall|i: int| 0 <= i < self.tag@.len() ==> match #[trigger] compiled@[i] {
                    Some(p) => self.tag@[i] matches Some(t) && regex_valid(t@) && p@ == t@,
                    None => !(self.tag@[i] matches Some(t) && regex_valid(t@)),
                },
                pass@.len() == row,
                forall|k: int| 0 <= k < row ==> #[trigger] pass@[k] == passes(*self, k),
        {
            let b = self.row_passes(row, &compiled);
            pass.push(b);
        }
        for i in 0..n
            invariant
                n == self.req@.len(),
                rs == self.hd@.len(),
                rs > 0,
                rows == self.bd@.len() / (rs as nat),
                rows == row_count(*self),
                pass@.len() == rows,
                forall|k: int| 0 <= k < rows ==> #[trigger] pass@[k] == passes(*self, k),
                out@.len() == i,
                forall|k: int| 0 <= k < i ==> #[trigger] out@[k].deep_view() == column_of(*self, k, row_count(*self)),
        {
            let mut col: Vec<String> = Vec::new();
            for row in 0..rows
                invariant
                    n == self.req@.len(),
                    i < n,
                    rs == self.hd@.len(),
                    rs > 0,
                    rows == self.bd@.len() / (rs as nat),
                    pass@.len() == rows,
                    forall|k: int| 0 <= k < rows ==> #[trigger] pass@[k] == passes(*self, k),
                    col.deep_view() =~= column_of(*self, i as int, row as nat),
            {
                if pass[row] {
                    let idx = self.req[i];
                    if idx != usize::MAX && idx < rs {
                        let bl = self.bd.len();
                        proof {
                            lemma_cell_index(row as int, idx as int, rs as int, bl as int);
                        }
                        let off = row * rs + idx;
                        col.push(Self::shown(self.bd[off].as_str()));
                    } else {
                        proof {
                            reveal_strlit("null");
                        }
                        col.push(copy_str("null"));
                    }
                }
            }
            out.push(col);
        }
        out
    }

    /// The requests whose formula is to be applied to their column of
    /// `data`: those with a formula and a non-empty column, when any request
    /// has a formula.
    pub fn formula_columns(&self, data: &Vec<Vec<String>>) -> (r: Vec<usize>)
        requires
            data@.len() >= self.opt@.len(),
        ensures
            forall|k: int| 0 <= k < r@.len() ==> #[trigger] r@[k] < self.opt@.len(),
            r@ == formula_picks(*self, data.deep_view(), self.opt@.len() as nat),
    {
        let mut out: Vec<usize> = Vec::new();
        if !self.check_opt {
            assert(out@ =~= formula_picks(*self, data.deep_view(), self.opt@.len() as nat));
            return out;
        }
        let n = self.opt.len();
        for i in 0..n
            invariant
                n == self.opt@.len(),
                data@.len() >= n,
                self.check_opt,
                forall|k: int| 0 <= k < out@.len() ==> #[trigger] out@[k] < n,
                out@ =~= formula_picks(*self, data.deep_view(), i as nat),
        {
            assert(data.deep_view()[i as int] == data@[i as int].deep_view());
            if !self.opt[i].as_str().is_empty() && data[i].len() > 0 {
                out.push(i);
            }
        }
        out
    }
}

/// The first `n` requests whose formula applies.
pub open spec fn formula_picks(p: Parse, data: Seq<Seq<Seq<char>>>, n: nat) -> Seq<usize>
    decreases n,
{
    if n == 0 || !p.check_opt {
        Seq::empty()
    } else {
        let rest = formula_picks(p, data, (n - 1) as nat);
        if p.opt@[n - 1]@.len() > 0 && data[n - 1].len() > 0 {
            rest.push((n - 1) as usize)
        } else {
            rest
        }
    }
}

} // verus!
