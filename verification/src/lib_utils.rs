use vstd::prelude::*;
use crate::html::{found_or_empty, html_first_markup, html_first_markup_of, html_rows, html_rows_of, or_empty};
use crate::json::{json_is_valid, json_parses, json_path_text, json_string_path};
use crate::pattern::{regex_replaced, regex_valid, Pattern};
use crate::text::{
    concat, contains, copy_str, decimal, decimal_chars, lemma_split_nonempty, opt_view,
    parse_usize, parse_usize_chars, push_char, push_str, replace, replace_str, split, split_str,
    starts_with, starts_with_chars, str_contains, str_eq, to_chars, trim, trim_chars, trim_str,
};

verus! {

/// The pattern whose matches `url_to_name` removes: an extension-like
/// `.word`, the placeholders `@num` and `@date`, and a query string.
pub const NAME_NOISE: &'static str = "(\\.\\w+|@num|@date|\\?.+)";

/// A cell-like child of a table row, as the HTML parser reports it.
pub struct HtmlCell {
    pub name: String,
    pub colspan: Option<String>,
    pub rowspan: Option<String>,
    /// The text of the first child node, when that node is text.
    pub first_text: Option<String>,
}

/// A `tr` element: whether a `table` lies inside it, and its child nodes
/// (`None` for a child that is not an element).
pub struct HtmlRow {
    pub has_table: bool,
    pub children: Vec<Option<HtmlCell>>,
}

/// Helpers on URLs, table markup and the parse-rule file.
pub struct LibUtils;

/// A cell as plain values: name, column span, row span, first text.
pub type CellView = (Seq<char>, Option<Seq<char>>, Option<Seq<char>>, Option<Seq<char>>);

/// A row as plain values: whether it holds a table, and its children.
pub type RowView = (bool, Seq<Option<CellView>>);

impl View for HtmlCell {
    type V = CellView;

    open spec fn view(&self) -> CellView {
        (self.name@, opt_view(self.colspan), opt_view(self.rowspan), opt_view(self.first_text))
    }
}

pub open spec fn child_view(c: Option<HtmlCell>) -> Option<CellView> {
    match c {
        Some(x) => Some(x@),
        None => None,
    }
}

impl View for HtmlRow {
    type V = RowView;

    open spec fn view(&self) -> RowView {
        (self.has_table, self.children@.map_values(|c: Option<HtmlCell>| child_view(c)))
    }
}

pub open spec fn rows_view(rows: Seq<HtmlRow>) -> Seq<RowView> {
    rows.map_values(|r: HtmlRow| r@)
}

/// The cleaned markup of an HTML file: `<html>`, each `tr` row without a
/// nested table rebuilt from its cells, `</html>`, then the markup of the
/// first `tag` element.
pub open spec fn spec_clean_html(file: Seq<char>) -> Seq<char> {
    "<html>"@ + rows_html(or_empty(html_rows_of(file, "tr"@, "table"@))) + "</html>"@ + found_or_empty(
        html_first_markup_of(file, "tag"@),
    )
}

// ---------------------------------------------------------------------------
// Specifications.
// ---------------------------------------------------------------------------

/// The file name for a URL whose noise has been removed: the last two
/// `/`-separated pieces joined by `_`, or the only piece.
pub open spec fn spec_name_from_cleaned(cleaned: Seq<char>) -> Seq<char> {
    let parts = split(cleaned, '/');
    if parts.len() >= 2 {
        parts[parts.len() - 2] + seq!['_'] + parts[parts.len() - 1]
    } else {
        parts[0]
    }
}

/// The file name for a URL.
pub open spec fn spec_url_to_name(url: Seq<char>) -> Seq<char> {
    if regex_valid(NAME_NOISE@) {
        spec_name_from_cleaned(regex_replaced(NAME_NOISE@, url, Seq::<char>::empty()))
    } else {
        spec_name_from_cleaned(url)
    }
}

/// A text taken for HTML: it starts with `<` once trimmed, or holds `<html>`
/// or `<tr`.
pub open spec fn spec_is_html(s: Seq<char>) -> bool {
    ||| starts_with(trim(s), seq!['<'])
    ||| contains(s, "<html>"@)
    ||| contains(s, "<tr"@)
}

/// A span attribute: its value when it parses as a `usize`, else 1.
pub open spec fn span_of(attr: Option<Seq<char>>) -> nat {
    match attr {
        Some(a) => match parse_usize(a) {
            Some(n) => n as nat,
            None => 1,
        },
        None => 1,
    }
}

/// The cleaned text of a cell.
pub open spec fn cell_text(first_text: Option<Seq<char>>) -> Seq<char> {
    let t = match first_text {
        Some(t) => t,
        None => Seq::<char>::empty(),
    };
    trim(replace(replace(t, "<br>"@, Seq::<char>::empty()), "<br/>"@, Seq::<char>::empty()))
}

/// One rebuilt `td`.
pub open spec fn td_html(rowspan: nat, text: Seq<char>) -> Seq<char> {
    let attrs = if rowspan > 1 {
        " rowspan='"@ + decimal(rowspan) + "'"@
    } else {
        Seq::<char>::empty()
    };
    "<td"@ + attrs + ">"@ + text + "</td>"@
}

/// `s` repeated `n` times.
pub open spec fn repeat(s: Seq<char>, n: nat) -> Seq<char>
    decreases n,
{
    if n == 0 {
        Seq::<char>::empty()
    } else {
        repeat(s, (n - 1) as nat) + s
    }
}

/// What one child of a row contributes: `td`/`th` elements become `td`s,
/// repeated over their column span; anything else contributes nothing.
pub open spec fn child_html(child: Option<CellView>) -> Seq<char> {
    match child {
        Some(c) => if c.0 == "td"@ || c.0 == "th"@ {
            let colspan = span_of(c.1);
            let cell = td_html(span_of(c.2), cell_text(c.3));
            if colspan > 1 {
                repeat(cell, colspan)
            } else {
                cell
            }
        } else {
            Seq::<char>::empty()
        },
        None => Seq::<char>::empty(),
    }
}

/// The children of a row, rebuilt.
pub open spec fn children_html(children: Seq<Option<CellView>>) -> Seq<char>
    decreases children.len(),
{
    if children.len() == 0 {
        Seq::<char>::empty()
    } else {
        children_html(children.drop_last()) + child_html(children.last())
    }
}

/// A row, rebuilt; a row that holds a table is dropped.
pub open spec fn row_html(row: RowView) -> Seq<char> {
    if row.0 {
        Seq::<char>::empty()
    } else {
        "<tr>"@ + children_html(row.1) + "</tr>"@
    }
}

/// All rows, rebuilt.
pub open spec fn rows_html(rows: Seq<RowView>) -> Seq<char>
    decreases rows.len(),
{
    if rows.len() == 0 {
        Seq::<char>::empty()
    } else {
        rows_html(rows.drop_last()) + row_html(rows.last())
    }
}

/// The built-in rules used when the rule file has none for a tag path.
pub open spec fn spec_tag_fallback(parts: Seq<Seq<char>>) -> Seq<char> {
    if parts.len() >= 3 {
        if parts[1] == "codec"@ && parts[2] == "UTF-8"@ {
            "UTF-8"@
        } else if parts[1] == "head"@ {
            if parts[2] == "JSON"@ {
                "fields"@
            } else if parts[2] == "HTML"@ {
                "tr:eq(0)"@
            } else {
                Seq::<char>::empty()
            }
        } else if parts[1] == "body"@ {
            if parts[2] == "JSON"@ {
                "data"@
            } else if parts[2] == "HTML"@ {
                "tr:gt(0)"@
            } else {
                Seq::<char>::empty()
            }
        } else {
            Seq::<char>::empty()
        }
    } else {
        Seq::<char>::empty()
    }
}

/// The rule for a `/`-separated tag path: the string the rule file holds at
/// that path, else the built-in rule.
pub open spec fn spec_get_tag(rules: Option<Seq<char>>, tag: Seq<char>) -> Seq<char> {
    let parts = split(tag, '/');
    match rules {
        Some(text) => match json_path_text(text, parts) {
            Some(s) => s,
            None => spec_tag_fallback(parts),
        },
        None => spec_tag_fallback(parts),
    }
}

// ---------------------------------------------------------------------------
// Implementation.
// ---------------------------------------------------------------------------

fn push_chars(out: &mut String, v: &[char])
    ensures
        final(out)@ == old(out)@ + v@,
{
    let n = v.len();
    let ghost start = out@;
    for i in 0..n
        invariant
            n == v@.len(),
            out@ == start + v@.take(i as int),
    {
        push_char(out, v[i]);
        assert(v@.take(i + 1) =~= v@.take(i as int).push(v@[i as int]));
    }
    assert(v@.take(n as int) =~= v@);
}

impl LibUtils {
    /// The file name for the text left of a URL once its noise is removed.
    pub fn name_from_cleaned(cleaned: &str) -> (r: String)
        ensures
            r@ == spec_name_from_cleaned(cleaned@),
    {
        let parts = split_str(cleaned, '/');
        proof {
            lemma_split_nonempty(cleaned@, '/');
        }
        let n = parts.len();
        if n >= 2 {
            let mut out = String::new();
            push_str(&mut out, parts[n - 2].as_str());
            push_char(&mut out, '_');
            push_str(&mut out, parts[n - 1].as_str());
            assert(out@ =~= spec_name_from_cleaned(cleaned@));
            out
        } else {
            copy_str(parts[0].as_str())
        }
    }

    /// The file name under which a URL is saved: the URL without its
    /// extension-like parts, placeholders and query, then its last two
    /// path pieces joined by `_`.
    pub fn url_to_name(url_in: &str) -> (r: String)
        ensures
            r@ == spec_url_to_name(url_in@),
    {
        match Pattern::compile(NAME_NOISE) {
            Some(p) => {
                let cleaned = p.replace_all(url_in, "");
                proof {
                    reveal_strlit("");
                }
                assert(""@ =~= Seq::<char>::empty());
                Self::name_from_cleaned(cleaned.as_str())
            },
            None => Self::name_from_cleaned(url_in),
        }
    }

    /// Whether the text parses as JSON.
    pub fn is_json(json_in: &str) -> (r: bool)
        ensures
            r == json_parses(json_in@),
    {
        json_is_valid(json_in)
    }

    /// Whether the text is taken for HTML.
    pub fn is_html(html_in: &str) -> (r: bool)
        ensures
            r == spec_is_html(html_in@),
    {
        let s = to_chars(html_in);
        let t = trim_chars(s.as_slice());
        let lt = to_chars("<");
        proof {
            reveal_strlit("<");
        }
        assert(lt@ =~= seq!['<']);
        if starts_with_chars(t.as_slice(), lt.as_slice()) {
            return true;
        }
        if str_contains(html_in, "<html>") {
            return true;
        }
        str_contains(html_in, "<tr")
    }

    /// The value of a span attribute, 1 when absent or not a number.
    pub fn span(attr: &Option<String>) -> (r: usize)
        ensures
            r as nat == span_of(opt_view(*attr)),
    {
        match attr {
            Some(a) => {
                let v = to_chars(a.as_str());
                match parse_usize_chars(v.as_slice()) {
                    Some(n) => n,
                    None => 1,
                }
            },
            None => 1,
        }
    }

    /// The text of a cell without `<br>` marks and surrounding whitespace.
    pub fn cell_text(first_text: &Option<String>) -> (r: String)
        ensures
            r@ == cell_text(opt_view(*first_text)),
    {
        let t = match first_text {
            Some(t) => copy_str(t.as_str()),
            None => String::new(),
        };
        proof {
            reveal_strlit("<br>");
            reveal_strlit("<br/>");
            reveal_strlit("");
        }
        let a = replace_str(t.as_str(), "<br>", "");
        let b = replace_str(a.as_str(), "<br/>", "");
        assert(""@ =~= Seq::<char>::empty());
        trim_str(b.as_str())
    }

    fn push_td(out: &mut String, rowspan: usize, text: &str)
        ensures
            final(out)@ == old(out)@ + td_html(rowspan as nat, text@),
    {
        let ghost start = out@;
        proof {
            reveal_strlit("<td");
            reveal_strlit(" rowspan='");
            reveal_strlit("'");
            reveal_strlit(">");
            reveal_strlit("</td>");
        }
        push_str(out, "<td");
        if rowspan > 1 {
            push_str(out, " rowspan='");
            let d = decimal_chars(rowspan);
            push_chars(out, d.as_slice());
            push_str(out, "'");
        }
        push_str(out, ">");
        push_str(out, text);
        push_str(out, "</td>");
        assert(out@ =~= start + td_html(rowspan as nat, text@));
    }

    fn push_child(out: &mut String, child: &Option<HtmlCell>)
        ensures
            final(out)@ == old(out)@ + child_html(child_view(*child)),
    {
        let ghost start = out@;
        match child {
            Some(c) => {
                proof {
                    reveal_strlit("td");
                    reveal_strlit("th");
                }
                if str_eq(c.name.as_str(), "td") || str_eq(c.name.as_str(), "th") {
                    let colspan = Self::span(&c.colspan);
                    let rowspan = Self::span(&c.rowspan);
                    let text = Self::cell_text(&c.first_text);
                    let ghost cell = td_html(rowspan as nat, text@);
                    if colspan > 1 {
                        let mut k: usize = 0;
                        while k < colspan
                            invariant
                                k <= colspan,
                                out@ == start + repeat(cell, k as nat),
                                cell == td_html(rowspan as nat, text@),
                            decreases colspan - k,
                        {
                            Self::push_td(out, rowspan, text.as_str());
                            assert(repeat(cell, (k + 1) as nat) == repeat(cell, k as nat) + cell);
                            assert(out@ =~= start + repeat(cell, (k + 1) as nat));
                            k = k + 1;
                        }
                    } else {
                        Self::push_td(out, rowspan, text.as_str());
                    }
                } else {
                    assert(out@ =~= start + child_html(child_view(*child)));
                }
            },
            None => {
                assert(out@ =~= start + child_html(child_view(*child)));
            },
        }
    }

    fn push_row(out: &mut String, row: &HtmlRow)
        ensures
            final(out)@ == old(out)@ + row_html(row@),
    {
        let ghost start = out@;
        let ghost kids = row@.1;
        if row.has_table {
            assert(out@ =~= start + row_html(row@));
            return;
        }
        proof {
            reveal_strlit("<tr>");
            reveal_strlit("</tr>");
        }
        push_str(out, "<tr>");
        let ghost mid = out@;
        let n = row.children.len();
        for i in 0..n
            invariant
                n == row.children@.len(),
                kids == row@.1,
                out@ == mid + children_html(kids.take(i as int)),
        {
            proof {
                assert(kids.take(i + 1).drop_last() =~= kids.take(i as int));
                assert(kids.take(i + 1).last() == child_view(row.children@[i as int]));
            }
            Self::push_child(out, &row.children[i]);
            proof {
                assert(out@ =~= mid + children_html(kids.take(i + 1)));
            }
        }
        assert(kids.take(n as int) =~= kids);
        push_str(out, "</tr>");
        assert(out@ =~= start + row_html(row@));
    }

    /// The table rows rebuilt as plain markup: each row that holds no
    /// nested table becomes `<tr>` with one `td` per `td`/`th` child
    /// (repeated over its column span, keeping a row span above 1), all
    /// inside `<html>`, followed by the markup of the first `tag` element.
    pub fn rebuild_rows(rows: &Vec<HtmlRow>, tag_html: &str) -> (r: String)
        ensures
            r@ == "<html>"@ + rows_html(rows_view(rows@)) + "</html>"@ + tag_html@,
    {
        proof {
            reveal_strlit("<html>");
            reveal_strlit("</html>");
        }
        let mut out = String::new();
        push_str(&mut out, "<html>");
        let ghost mid = out@;
        let ghost rv = rows_view(rows@);
        let n = rows.len();
        for i in 0..n
            invariant
                n == rows@.len(),
                rv == rows_view(rows@),
                out@ == mid + rows_html(rv.take(i as int)),
        {
            proof {
                assert(rv.take(i + 1).drop_last() =~= rv.take(i as int));
                assert(rv.take(i + 1).last() == rows@[i as int]@);
            }
            Self::push_row(&mut out, &rows[i]);
            assert(out@ =~= mid + rows_html(rv.take(i + 1)));
        }
        assert(rv.take(n as int) =~= rv);
        push_str(&mut out, "</html>");
        push_str(&mut out, tag_html);
        assert(out@ =~= "<html>"@ + rows_html(rv) + "</html>"@ + tag_html@);
        out
    }

    /// The cleaned markup of an HTML file (as `scraper` parses it): its
    /// `tr` rows rebuilt, then the markup of its first `tag` element.
    pub fn clean_html(html_content: &str) -> (r: String)
        ensures
            r@ == spec_clean_html(html_content@),
    {
        let rows = match html_rows(html_content, "tr", "table") {
            Some(rows) => rows,
            None => Vec::new(),
        };
        assert(rows_view(rows@) == or_empty(html_rows_of(html_content@, "tr"@, "table"@)));
        let tag = match html_first_markup(html_content, "tag") {
            Some(Some(t)) => t,
            _ => String::new(),
        };
        Self::rebuild_rows(&rows, tag.as_str())
    }

    /// The built-in rule for a tag path.
    pub fn tag_fallback(parts: &Vec<String>) -> (r: String)
        ensures
            r@ == spec_tag_fallback(parts.deep_view()),
    {
        proof {
            reveal_strlit("codec");
            reveal_strlit("UTF-8");
            reveal_strlit("head");
            reveal_strlit("body");
            reveal_strlit("JSON");
            reveal_strlit("HTML");
            reveal_strlit("fields");
            reveal_strlit("data");
            reveal_strlit("tr:eq(0)");
            reveal_strlit("tr:gt(0)");
        }
        let ghost dv = parts.deep_view();
        if parts.len() >= 3 {
            assert(dv[1] == parts@[1]@ && dv[2] == parts@[2]@);
            let p1 = parts[1].as_str();
            let p2 = parts[2].as_str();
            if str_eq(p1, "codec") && str_eq(p2, "UTF-8") {
                copy_str("UTF-8")
            } else if str_eq(p1, "head") {
                if str_eq(p2, "JSON") {
                    copy_str("fields")
                } else if str_eq(p2, "HTML") {
                    copy_str("tr:eq(0)")
                } else {
                    String::new()
                }
            } else if str_eq(p1, "body") {
                if str_eq(p2, "JSON") {
                    copy_str("data")
                } else if str_eq(p2, "HTML") {
                    copy_str("tr:gt(0)")
                } else {
                    String::new()
                }
            } else {
                String::new()
            }
        } else {
            String::new()
        }
    }

    /// The rule for a `/`-separated tag path: the string that the rule file
    /// (its text, when it could be read) holds at that path, else the
    /// built-in rule.
    pub fn get_tag(rules: &Option<String>, tag_in: &str) -> (r: String)
        ensures
            r@ == spec_get_tag(opt_view(*rules), tag_in@),
    {
        let parts = split_str(tag_in, '/');
        assert(parts.deep_view() =~= split(tag_in@, '/'));
        match rules {
            Some(text) => {
                match json_string_path(text.as_str(), &parts) {
                    Some(s) => s,
                    None => Self::tag_fallback(&parts),
                }
            },
            None => Self::tag_fallback(&parts),
        }
    }
}

} // verus!
