use vstd::prelude::*;
use crate::dates::{
    add_days, add_months, format_day, format_ymd, months_added, parse_ymd, valid_day, year_of,
    day_text, year_of_day, ymd_parsed, ymd_text,
};
use crate::json::{json_has_key, json_key_present, json_pointer_text, json_string_at};
use crate::pattern::{match_result, match_text, regex_matches, regex_valid, Pattern};
use crate::text::{
    concat, concat_strs, contains, copy_str, decimal, decimal_string, lemma_split_nonempty,
    opt_view, push_char, push_str, replace, replace_str, signed_decimal, signed_decimal_string,
    split, split_str, starts_with, str_contains, str_eq, to_chars, starts_with_chars, trim,
    trim_str,
};

verus! {

/// One download list: where it comes from, the folder it goes to, its label
/// (how dates and numbers are stepped) and the date it was last fetched.
pub struct ConfigEntry {
    pub url: String,
    pub folder: String,
    pub label: String,
    pub status: String,
}

/// The download lists, by title, in the order they were added:
/// `entries[i]` belongs to `titles[i]`.
pub struct Config {
    pub titles: Vec<String>,
    pub entries: Vec<ConfigEntry>,
}

/// The number lists that stock and ETF labels draw from: the first data
/// column of each listing file (empty where the file could not be read).
pub struct CodeLists {
    /// Listed stocks (上市).
    pub listed: Vec<String>,
    /// Over-the-counter stocks (上櫃).
    pub otc: Vec<String>,
    /// Funds (基金).
    pub etf: Vec<String>,
}

/// The header of a listing file's column of codes and names.
pub const LISTING_COLUMN: &'static str = "有價證券代號及名稱";

/// Where the listing of listed stocks is saved.
pub const LISTED_PATH: &'static str = "downloads/上市證券代號/isin_C_public.txt";

/// Where the listing of over-the-counter stocks is saved.
pub const OTC_PATH: &'static str = "downloads/上櫃證券代號/isin_C_public.txt";

/// Where the listing of funds is saved.
pub const ETF_PATH: &'static str = "downloads/基金＿國際證券代號/isin_C_public.txt";

/// The relay of a name: the URL and the request, date and number arguments
/// saved for it.
pub struct Relay {
    pub url: String,
    pub request: String,
    pub date: String,
    pub num: String,
}

/// The pattern that a date range argument (`start~end`) must match.
pub const RANGE_PATTERN: &'static str = "\\d+~\\d+";

/// The pattern that an explicit list of numbers (`a.b.c`) must match.
pub const NUM_LIST_PATTERN: &'static str = "\\w+(\\.\\w+)+";

/// The pattern of a stock line: four digits and an ideographic space.
pub const STOCK_LINE_PATTERN: &'static str = "^[0-9]{4}\u{3000}";

/// The pattern of a fund line: `T`, digits and a word char.
pub const ETF_LINE_PATTERN: &'static str = "^T[0-9]+\\w";

/// Months between the Republic of China era and the common era.
pub const MINGUO_MONTHS: u32 = 22932;

// ---------------------------------------------------------------------------
// The model.
// ---------------------------------------------------------------------------

impl Config {
    /// Titles are unique and each has its entry.
    pub open spec fn wf(&self) -> bool {
        &&& self.titles@.len() == self.entries@.len()
        &&& distinct(self.titles.deep_view())
    }

    /// The position of a title.
    pub open spec fn index_of(&self, title: Seq<char>) -> Option<int> {
        first_index(self.titles.deep_view(), title)
    }
}

/// Two entries with the same fields.
pub open spec fn same_entry(a: ConfigEntry, b: ConfigEntry) -> bool {
    &&& a.url@ == b.url@
    &&& a.folder@ == b.folder@
    &&& a.label@ == b.label@
    &&& a.status@ == b.status@
}

pub open spec fn distinct(s: Seq<Seq<char>>) -> bool {
    forall|i: int, j: int| 0 <= i < s.len() && 0 <= j < s.len() && i != j ==> s[i] != s[j]
}

/// The first position of `x` in `s`.
pub open spec fn first_index(s: Seq<Seq<char>>, x: Seq<char>) -> Option<int>
    decreases s.len(),
{
    if s.len() == 0 {
        None
    } else {
        match first_index(s.drop_last(), x) {
            Some(i) => Some(i),
            None => if s.last() == x {
                Some(s.len() - 1)
            } else {
                None
            },
        }
    }
}

/// The first entry fetched from `url`.
pub open spec fn find_url(entries: Seq<ConfigEntry>, url: Seq<char>) -> Option<int>
    decreases entries.len(),
{
    if entries.len() == 0 {
        None
    } else {
        match find_url(entries.drop_last(), url) {
            Some(i) => Some(i),
            None => if entries.last().url@ == url {
                Some(entries.len() - 1)
            } else {
                None
            },
        }
    }
}

/// The pieces that do not contain `p`.
pub open spec fn drop_containing(parts: Seq<Seq<char>>, p: Seq<char>) -> Seq<Seq<char>>
    decreases parts.len(),
{
    if parts.len() == 0 {
        parts
    } else if contains(parts.last(), p) {
        drop_containing(parts.drop_last(), p)
    } else {
        drop_containing(parts.drop_last(), p).push(parts.last())
    }
}

/// The fields of a label: the `,`-pieces that do not mention `placeholder`,
/// joined, then split at `:` and trimmed.
pub open spec fn label_parts(label: Seq<char>, placeholder: Seq<char>) -> Seq<Seq<char>> {
    split(concat(drop_containing(split(label, ','), placeholder)), ':').map_values(
        |p: Seq<char>| trim(p),
    )
}

/// The header of the list view.
pub open spec fn list_header() -> Seq<Seq<char>> {
    seq!["number"@, "title"@, "URL"@, "folder"@, "label"@, "status"@, "\n"@]
}

/// The list view of one entry.
pub open spec fn list_row(i: nat, title: Seq<char>, e: ConfigEntry) -> Seq<Seq<char>> {
    seq![decimal(i), title, e.url@, e.folder@, e.label@, e.status@ + "\n"@]
}

/// The list view of the first `n` entries.
pub open spec fn list_rows(titles: Seq<Seq<char>>, entries: Seq<ConfigEntry>, n: nat) -> Seq<Seq<char>>
    decreases n,
{
    if n == 0 {
        Seq::empty()
    } else {
        list_rows(titles, entries, (n - 1) as nat) + list_row(
            (n - 1) as nat,
            titles[n - 1],
            entries[n - 1],
        )
    }
}

/// A parsed `%Y%m%d` date, or `today` where the text does not parse.
pub open spec fn day_or(text: Seq<char>, today: int) -> int {
    match ymd_parsed(text) {
        Some(d) => d,
        None => today,
    }
}

/// How far one step of a date stream moves.
pub enum Step {
    Month,
    Week,
    Day,
}

pub open spec fn step_of(s: Seq<char>) -> Step {
    if s == "M"@ {
        Step::Month
    } else if s == "W"@ {
        Step::Week
    } else {
        Step::Day
    }
}

/// The day after one step from `d`, where the calendar can hold it: a month
/// (or, where chrono cannot add one, 30 days), a week, or a day.
pub open spec fn next_day(d: int, step: Step) -> Option<int> {
    match step {
        Step::Month => if valid_day(d + 30) {
            match months_added(d, 1) {
                Some(x) => Some(x),
                None => Some(d + 30),
            }
        } else {
            None
        },
        Step::Week => if valid_day(d + 7) {
            Some(d + 7)
        } else {
            None
        },
        Step::Day => if valid_day(d + 1) {
            Some(d + 1)
        } else {
            None
        },
    }
}

/// The `%Y%m%d` dates from `start` stepping while before `end`.
pub open spec fn date_series(start: int, end: int, step: Step) -> Seq<Seq<char>>
    decreases end - start,
{
    if start < end {
        seq![ymd_text(start)] + match next_day(start, step) {
            Some(x) => if start < x && x < end {
                date_series(x, end, step)
            } else {
                Seq::empty()
            },
            None => Seq::empty(),
        }
    } else {
        Seq::empty()
    }
}

pub open spec fn one_empty() -> Seq<Seq<char>> {
    seq![Seq::<char>::empty()]
}

/// The first and last day of a date stream: an explicit `start~end` range,
/// or from the entry's status (moved from the Republic of China era when the
/// date format has no four-digit year) to today.
pub open spec fn date_bounds(
    st_ed: Seq<char>,
    status: Seq<char>,
    format: Seq<char>,
    today: int,
) -> (int, int) {
    if match_result(RANGE_PATTERN@, st_ed) == Some(true) {
        let sp = split(st_ed, '~');
        let second = if sp.len() >= 2 {
            sp[1]
        } else {
            Seq::<char>::empty()
        };
        (day_or(sp[0], today), day_or(second, today))
    } else {
        let s = day_or(status, today);
        let s2 = if !contains(format, "yyyy"@) {
            match months_added(s, MINGUO_MONTHS as nat) {
                Some(d) => d,
                None => s,
            }
        } else {
            s
        };
        (s2, today)
    }
}

/// The dates a URL is fetched for.
pub open spec fn spec_stream_date(
    entries: Seq<ConfigEntry>,
    url: Seq<char>,
    st_ed: Seq<char>,
    today: int,
) -> Seq<Seq<char>> {
    if !contains(url, "@date"@) {
        one_empty()
    } else {
        match find_url(entries, url) {
            None => one_empty(),
            Some(i) => {
                let parts = label_parts(entries[i].label@, "@date"@);
                if parts.len() < 3 {
                    one_empty()
                } else {
                    let b = date_bounds(st_ed, entries[i].status@, parts[1], today);
                    date_series(b.0, b.1, step_of(parts[2]))
                }
            },
        }
    }
}

/// A pattern without its year letters.
pub open spec fn without_year(p: Seq<char>) -> Seq<char> {
    replace(replace(replace(p, "yyyy"@, Seq::empty()), "yyy"@, Seq::empty()), "yy"@, Seq::empty())
}

/// A date written the way a URL expects it.
pub open spec fn spec_to_origin(
    entries: Seq<ConfigEntry>,
    date: Seq<char>,
    url: Seq<char>,
    today: int,
) -> Seq<char> {
    if date.len() == 0 {
        date
    } else {
        match find_url(entries, url) {
            None => date,
            Some(i) => {
                let parts = label_parts(entries[i].label@, "@num"@);
                if parts.len() < 2 {
                    date
                } else {
                    let pattern = parts[1];
                    let d = day_or(date, today);
                    if !contains(pattern, "yyyy"@) {
                        let minguo = signed_decimal(year_of_day(d) - 1911);
                        match day_text(d, without_year(pattern)) {
                            Some(f) => if starts_with(pattern, "yy"@) {
                                minguo + f
                            } else {
                                f + minguo
                            },
                            None => date,
                        }
                    } else {
                        match day_text(d, pattern) {
                            Some(f) => f,
                            None => date,
                        }
                    }
                }
            },
        }
    }
}

/// The items of a column that match a pattern, cut at the first ideographic space.
pub open spec fn codes_of(column: Seq<Seq<char>>, pattern: Seq<char>) -> Seq<Seq<char>>
    decreases column.len(),
{
    if column.len() == 0 {
        Seq::empty()
    } else {
        let rest = codes_of(column.drop_last(), pattern);
        if regex_valid(pattern) && regex_matches(pattern, column.last()) {
            rest.push(split(column.last(), '\u{3000}')[0])
        } else {
            rest
        }
    }
}

/// The stock numbers for a market name: listed, over-the-counter, or both.
pub open spec fn spec_stock_num(name: Seq<char>, lists: CodeLists) -> Seq<Seq<char>> {
    let listed = codes_of(lists.listed.deep_view(), STOCK_LINE_PATTERN@);
    let otc = codes_of(lists.otc.deep_view(), STOCK_LINE_PATTERN@);
    if name == "listed"@ || name == "上市"@ {
        listed
    } else if name == "OTC"@ || name == "上櫃"@ {
        otc
    } else {
        listed + otc
    }
}

/// The numbers a URL is fetched for.
pub open spec fn spec_stream_num(
    entries: Seq<ConfigEntry>,
    url: Seq<char>,
    num: Seq<char>,
    lists: CodeLists,
) -> Seq<Seq<char>> {
    if !contains(url, "@num"@) {
        one_empty()
    } else if match_result(NUM_LIST_PATTERN@, num) == Some(true) {
        split(num, '.')
    } else {
        match find_url(entries, url) {
            None => one_empty(),
            Some(i) => {
                let parts = label_parts(entries[i].label@, "@num"@);
                if parts[0] == "stock"@ {
                    let sub = if parts.len() > 1 {
                        parts[1]
                    } else {
                        Seq::<char>::empty()
                    };
                    spec_stock_num(sub, lists)
                } else if parts[0] == "ETF"@ {
                    codes_of(lists.etf.deep_view(), ETF_LINE_PATTERN@)
                } else {
                    one_empty()
                }
            },
        }
    }
}

/// The relay saved under `name` in the relay file, all empty where the file
/// or the name is missing.
pub open spec fn spec_relay(text: Option<Seq<char>>, name: Seq<char>) -> (Seq<char>, Seq<char>, Seq<char>, Seq<char>) {
    match text {
        Some(t) => if json_key_present(t, name) {
            (
                field_or_empty(json_pointer_text(t, seq!['/'] + name + "/URL"@)),
                field_or_empty(json_pointer_text(t, seq!['/'] + name + "/request"@)),
                field_or_empty(json_pointer_text(t, seq!['/'] + name + "/date"@)),
                field_or_empty(json_pointer_text(t, seq!['/'] + name + "/num"@)),
            )
        } else {
            (Seq::empty(), Seq::empty(), Seq::empty(), Seq::empty())
        },
        None => (Seq::empty(), Seq::empty(), Seq::empty(), Seq::empty()),
    }
}

pub open spec fn field_or_empty(o: Option<Seq<char>>) -> Seq<char> {
    match o {
        Some(s) => s,
        None => Seq::empty(),
    }
}

/// `after` is `before` once a shared list `e` is taken in: the entry of a
/// title already listed under its folder name replaced, else added at the end.
pub open spec fn imported(before: Config, e: ConfigEntry, after: Config) -> bool {
    match before.index_of(e.folder@) {
        Some(k) => after.titles@ == before.titles@ && after.entries@ == before.entries@.update(k, e),
        None => after.titles.deep_view() == before.titles.deep_view().push(e.folder@)
            && after.entries@ == before.entries@.push(e),
    }
}

// ---------------------------------------------------------------------------
// Laws and lemmas.
// ---------------------------------------------------------------------------

/// The list view holds its seven header items and six items per list, and
/// the items of list `k` are its number, title, URL, folder, label and
/// status (ending the line).
pub proof fn law_list_layout(titles: Seq<Seq<char>>, entries: Seq<ConfigEntry>, n: nat)
    ensures
        (list_header() + list_rows(titles, entries, n)).len() == 7 + 6 * n,
        forall|k: int|
            0 <= k < n ==> (list_header() + list_rows(titles, entries, n)).subrange(
                7 + 6 * k,
                7 + 6 * k + 6,
            ) == #[trigger] list_row(k as nat, titles[k], entries[k]),
    decreases n,
{
    if n > 0 {
        let m = (n - 1) as nat;
        law_list_layout(titles, entries, m);
        let prev = list_header() + list_rows(titles, entries, m);
        let all = list_header() + list_rows(titles, entries, n);
        let last = list_row(m, titles[m as int], entries[m as int]);
        assert(all =~= prev + last);
        assert forall|k: int| 0 <= k < n implies all.subrange(7 + 6 * k, 7 + 6 * k + 6)
            == #[trigger] list_row(k as nat, titles[k], entries[k]) by {
            if k < m {
                assert(all.subrange(7 + 6 * k, 7 + 6 * k + 6) =~= prev.subrange(7 + 6 * k, 7 + 6 * k + 6));
            } else {
                assert(all.subrange(7 + 6 * k, 7 + 6 * k + 6) =~= last);
            }
        }
    }
}

/// A daily date stream from `start` to `end` holds every day in between,
/// `end` excluded, in order.
pub proof fn law_daily_series(start: int, end: int)
    requires
        valid_day(start),
        valid_day(end),
        start <= end,
    ensures
        date_series(start, end, Step::Day).len() == end - start,
        forall|k: int|
            0 <= k < end - start ==> #[trigger] date_series(start, end, Step::Day)[k] == ymd_text(
                start + k,
            ),
    decreases end - start,
{
    if start < end {
        law_daily_series(start + 1, end);
        let rest = date_series(start + 1, end, Step::Day);
        assert(next_day(start, Step::Day) == Some(start + 1));
        if start + 1 < end {
            assert(date_series(start, end, Step::Day) == seq![ymd_text(start)] + rest);
        } else {
            assert(date_series(start, end, Step::Day) =~= seq![ymd_text(start)]);
        }
        assert forall|k: int| 0 <= k < end - start implies #[trigger] date_series(start, end, Step::Day)[k]
            == ymd_text(start + k) by {
            if k > 0 {
                assert(date_series(start, end, Step::Day)[k] == rest[k - 1]);
            }
        }
    }
}

/// A date stream is empty unless `start` is before `end`; then it begins
/// with `start` and holds at most one date per day of the span.
pub proof fn law_series_bounded(start: int, end: int, step: Step)
    ensures
        start >= end ==> date_series(start, end, step).len() == 0,
        start < end ==> date_series(start, end, step).len() >= 1 && date_series(start, end, step)[0]
            == ymd_text(start) && date_series(start, end, step).len() <= end - start,
    decreases end - start,
{
    if start < end {
        match next_day(start, step) {
            Some(x) => {
                if start < x && x < end {
                    law_series_bounded(x, end, step);
                }
            },
            None => {},
        }
    }
}

/// A weekly date stream from `start` to `end` holds every seventh day from
/// `start` on, `end` excluded: consecutive dates lie seven days apart.
pub proof fn law_weekly_series(start: int, end: int)
    requires
        valid_day(start),
        valid_day(end),
        start <= end,
    ensures
        date_series(start, end, Step::Week).len() == (end - start + 6) / 7,
        forall|k: int|
            0 <= k < (end - start + 6) / 7 ==> #[trigger] date_series(start, end, Step::Week)[k] == ymd_text(
                start + 7 * k,
            ),
    decreases end - start,
{
    if start < end {
        let rest = date_series(start + 7, end, Step::Week);
        if start + 7 < end {
            law_weekly_series(start + 7, end);
            assert(next_day(start, Step::Week) == Some(start + 7));
            assert(date_series(start, end, Step::Week) == seq![ymd_text(start)] + rest);
            assert((end - start + 6) / 7 == (end - (start + 7) + 6) / 7 + 1);
            assert forall|k: int| 0 <= k < (end - start + 6) / 7 implies #[trigger] date_series(
                start,
                end,
                Step::Week,
            )[k] == ymd_text(start + 7 * k) by {
                if k > 0 {
                    assert(date_series(start, end, Step::Week)[k] == rest[k - 1]);
                    assert(start + 7 + 7 * (k - 1) == start + 7 * k);
                }
            }
        } else {
            assert(date_series(start, end, Step::Week) =~= seq![ymd_text(start)]);
            assert((end - start + 6) / 7 == 1);
        }
    }
}

/// The dates a list is fetched for step as its label's third part says:
/// for a URL with `@date` whose list is found and whose `@date` label has
/// at least three parts, the stream runs over the label's bounds a week at
/// a time for `W`, a month at a time for `M`, and a day at a time for any
/// other step.
pub proof fn law_stream_date_step(entries: Seq<ConfigEntry>, url: Seq<char>, st_ed: Seq<char>, today: int, i: int)
    requires
        contains(url, "@date"@),
        find_url(entries, url) == Some(i),
        label_parts(entries[i].label@, "@date"@).len() >= 3,
    ensures
        ({
            let parts = label_parts(entries[i].label@, "@date"@);
            let b = date_bounds(st_ed, entries[i].status@, parts[1], today);
            &&& parts[2] == "W"@ ==> spec_stream_date(entries, url, st_ed, today) == date_series(b.0, b.1, Step::Week)
            &&& parts[2] == "M"@ ==> spec_stream_date(entries, url, st_ed, today) == date_series(b.0, b.1, Step::Month)
            &&& parts[2] != "W"@ && parts[2] != "M"@ ==> spec_stream_date(entries, url, st_ed, today) == date_series(
                b.0,
                b.1,
                Step::Day,
            )
        }),
{
    reveal_strlit("W");
    reveal_strlit("M");
    assert("W"@ != "M"@) by {
        assert("W"@[0] != "M"@[0]);
    }
}

/// The stock numbers of a market: the over-the-counter codes for `OTC` or
/// `上櫃`, the listed codes for `listed` or `上市`, and both markets, listed
/// first, for any other name.
pub proof fn law_stock_markets(name: Seq<char>, lists: CodeLists)
    ensures
        (name == "OTC"@ || name == "上櫃"@) ==> spec_stock_num(name, lists) == codes_of(
            lists.otc.deep_view(),
            STOCK_LINE_PATTERN@,
        ),
        (name == "listed"@ || name == "上市"@) ==> spec_stock_num(name, lists) == codes_of(
            lists.listed.deep_view(),
            STOCK_LINE_PATTERN@,
        ),
        !(name == "OTC"@ || name == "上櫃"@ || name == "listed"@ || name == "上市"@) ==> spec_stock_num(name, lists)
            == codes_of(lists.listed.deep_view(), STOCK_LINE_PATTERN@) + codes_of(
            lists.otc.deep_view(),
            STOCK_LINE_PATTERN@,
        ),
{
    reveal_strlit("OTC");
    reveal_strlit("上櫃");
    reveal_strlit("listed");
    reveal_strlit("上市");
    assert("OTC"@ != "listed"@ && "OTC"@ != "上市"@) by {
        assert("OTC"@[0] != "listed"@[0]);
        assert("OTC"@[0] != "上市"@[0]);
    }
    assert("上櫃"@ != "listed"@ && "上櫃"@ != "上市"@) by {
        assert("上櫃"@[0] != "listed"@[0]);
        assert("上櫃"@[1] != "上市"@[1]);
    }
}

/// The numbers a list is fetched for come from its label when no number
/// list is given: for a URL with `@num` whose list is found, a label whose
/// first `@num` part is `ETF` gives the fund codes of the fund listing (what
/// `etf_num` gives), and one whose first part is `stock` the stock codes of
/// the market its second part names (what `stock_num` gives).
pub proof fn law_stream_num_by_label(entries: Seq<ConfigEntry>, url: Seq<char>, num: Seq<char>, lists: CodeLists, i: int)
    requires
        contains(url, "@num"@),
        match_result(NUM_LIST_PATTERN@, num) != Some(true),
        find_url(entries, url) == Some(i),
    ensures
        ({
            let parts = label_parts(entries[i].label@, "@num"@);
            &&& parts[0] == "ETF"@ ==> spec_stream_num(entries, url, num, lists) == codes_of(
                lists.etf.deep_view(),
                ETF_LINE_PATTERN@,
            )
            &&& parts[0] == "stock"@ && parts.len() > 1 ==> spec_stream_num(entries, url, num, lists)
                == spec_stock_num(parts[1], lists)
            &&& parts[0] == "stock"@ && parts.len() <= 1 ==> spec_stream_num(entries, url, num, lists)
                == codes_of(lists.listed.deep_view(), STOCK_LINE_PATTERN@) + codes_of(
                lists.otc.deep_view(),
                STOCK_LINE_PATTERN@,
            )
        }),
{
    reveal_strlit("ETF");
    reveal_strlit("stock");
    assert("ETF"@ != "stock"@) by {
        assert("ETF"@[0] != "stock"@[0]);
    }
    law_stock_markets(Seq::<char>::empty(), lists);
    let parts = label_parts(entries[i].label@, "@num"@);
    if parts[0] == "ETF"@ {
        assert(!(parts[0] == "stock"@));
        assert(spec_stream_num(entries, url, num, lists) == codes_of(lists.etf.deep_view(), ETF_LINE_PATTERN@));
    }
    if parts[0] == "stock"@ && parts.len() > 1 {
        assert(spec_stream_num(entries, url, num, lists) == spec_stock_num(parts[1], lists));
    }
    if parts[0] == "stock"@ && parts.len() <= 1 {
        assert(spec_stream_num(entries, url, num, lists) == spec_stock_num(Seq::<char>::empty(), lists));
    }
    reveal_strlit("OTC");
    reveal_strlit("上櫃");
    reveal_strlit("listed");
    reveal_strlit("上市");
    if parts[0] == "stock"@ && parts.len() <= 1 {
        assert(Seq::<char>::empty().len() == 0);
        assert("OTC"@.len() == 3);
        assert("上櫃"@.len() == 2);
        assert(Seq::<char>::empty() != "OTC"@);
        assert(Seq::<char>::empty() != "上櫃"@);
        assert(Seq::<char>::empty() != "listed"@);
        assert(Seq::<char>::empty() != "上市"@);
        assert(spec_stock_num(Seq::<char>::empty(), lists) == codes_of(lists.listed.deep_view(), STOCK_LINE_PATTERN@) + codes_of(
                lists.otc.deep_view(),
                STOCK_LINE_PATTERN@,
            ));
    }
}

/// A URL without `@num` is fetched for the one empty number, and an
/// explicit `a.b.c` number list is fetched as given, whatever the lists say;
/// a URL without `@date` is fetched for the one empty date.
pub proof fn law_streams_given(entries: Seq<ConfigEntry>, url: Seq<char>, num: Seq<char>, st_ed: Seq<char>, today: int, lists: CodeLists)
    ensures
        !contains(url, "@num"@) ==> spec_stream_num(entries, url, num, lists) == seq![Seq::<char>::empty()],
        contains(url, "@num"@) && match_result(NUM_LIST_PATTERN@, num) == Some(true) ==> spec_stream_num(
            entries,
            url,
            num,
            lists,
        ) == split(num, '.'),
        !contains(url, "@date"@) ==> spec_stream_date(entries, url, st_ed, today) == seq![Seq::<char>::empty()],
{
}

/// Taking in the same shared list twice leaves the lists as taking it in
/// once does.
pub proof fn law_import_twice(c0: Config, c1: Config, c2: Config, e: ConfigEntry)
    requires
        c0.wf(),
        imported(c0, e, c1),
        imported(c1, e, c2),
    ensures
        c2.titles.deep_view() == c1.titles.deep_view(),
        c2.entries@ == c1.entries@,
{
    lemma_first_index(c0.titles.deep_view(), e.folder@);
    match c0.index_of(e.folder@) {
        Some(k) => {
            assert(c1.titles.deep_view() =~= c0.titles.deep_view());
            assert(c2.entries@ =~= c1.entries@);
        },
        None => {
            let t1 = c1.titles.deep_view();
            assert(t1.drop_last() =~= c0.titles.deep_view());
            assert(c1.index_of(e.folder@) == Some(c0.titles.deep_view().len() as int));
            assert(c2.titles.deep_view() =~= t1);
            assert(c2.entries@ =~= c1.entries@);
        },
    }
}

pub proof fn lemma_first_index(s: Seq<Seq<char>>, x: Seq<char>)
    ensures
        match first_index(s, x) {
            Some(i) => 0 <= i < s.len() && s[i] == x && forall|j: int| 0 <= j < i ==> s[j] != x,
            None => forall|j: int| 0 <= j < s.len() ==> s[j] != x,
        },
    decreases s.len(),
{
    if s.len() > 0 {
        lemma_first_index(s.drop_last(), x);
        assert forall|j: int| 0 <= j < s.len() - 1 implies s.drop_last()[j] == s[j] by {}
    }
}

pub proof fn lemma_find_url(entries: Seq<ConfigEntry>, url: Seq<char>)
    ensures
        match find_url(entries, url) {
            Some(i) => 0 <= i < entries.len() && entries[i].url@ == url && forall|j: int|
                0 <= j < i ==> entries[j].url@ != url,
            None => forall|j: int| 0 <= j < entries.len() ==> entries[j].url@ != url,
        },
    decreases entries.len(),
{
    if entries.len() > 0 {
        lemma_find_url(entries.drop_last(), url);
        assert forall|j: int| 0 <= j < entries.len() - 1 implies entries.drop_last()[j] == entries[j] by {}
    }
}

// ---------------------------------------------------------------------------
// Implementation.
// ---------------------------------------------------------------------------

fn lit(s: &str) -> (r: String)
    ensures
        r@ == s@,
{
    copy_str(s)
}

impl ConfigEntry {
    /// A copy of the entry.
    pub fn duplicate(&self) -> (r: ConfigEntry)
        ensures
            same_entry(r, *self),
    {
        ConfigEntry {
            url: copy_str(self.url.as_str()),
            folder: copy_str(self.folder.as_str()),
            label: copy_str(self.label.as_str()),
            status: copy_str(self.status.as_str()),
        }
    }
}

impl Config {
    /// The lists read from the configuration file, one per title (a file
    /// holds each title once), in the order given.
    pub fn new(pairs: Vec<(String, ConfigEntry)>) -> (c: Config)
        requires
            distinct(pairs@.map_values(|p: (String, ConfigEntry)| p.0@)),
        ensures
            c.wf(),
            c.titles.deep_view() == pairs@.map_values(|p: (String, ConfigEntry)| p.0@),
            c.entries@.len() == pairs@.len(),
            forall|k: int| 0 <= k < pairs@.len() ==> same_entry(#[trigger] c.entries@[k], pairs@[k].1),
    {
        let ghost keys = pairs@.map_values(|p: (String, ConfigEntry)| p.0@);
        let mut titles: Vec<String> = Vec::new();
        let mut entries: Vec<ConfigEntry> = Vec::new();
        let n = pairs.len();
        for i in 0..n
            invariant
                n == pairs@.len(),
                keys == pairs@.map_values(|p: (String, ConfigEntry)| p.0@),
                titles.deep_view() =~= keys.take(i as int),
                entries@.len() == i,
                forall|k: int| 0 <= k < i ==> same_entry(#[trigger] entries@[k], pairs@[k].1),
        {
            titles.push(copy_str(pairs[i].0.as_str()));
            entries.push(pairs[i].1.duplicate());
            proof {
                assert(keys.take(i + 1) =~= keys.take(i as int).push(keys[i as int]));
            }
        }
        proof {
            assert(keys.take(n as int) =~= keys);
        }
        Config { titles, entries }
    }

    /// Adds a list under a title that is not yet listed.
    pub fn add_entry(&mut self, title: &str, entry: ConfigEntry)
        requires
            old(self).wf(),
            old(self).index_of(title@) is None,
        ensures
            final(self).wf(),
            final(self).titles.deep_view() == old(self).titles.deep_view().push(title@),
            final(self).entries@ == old(self).entries@.push(entry),
    {
        proof {
            lemma_first_index(self.titles.deep_view(), title@);
        }
        let ghost old_titles = self.titles.deep_view();
        self.titles.push(copy_str(title));
        self.entries.push(entry);
        assert(self.titles.deep_view() =~= old_titles.push(title@));
    }

    /// Removes the list at a position, giving its title back.
    pub fn remove_at(&mut self, i: usize) -> (r: String)
        requires
            old(self).wf(),
            i < old(self).titles@.len(),
        ensures
            final(self).wf(),
            r@ == old(self).titles.deep_view()[i as int],
            final(self).titles.deep_view() == old(self).titles.deep_view().remove(i as int),
            final(self).entries@ == old(self).entries@.remove(i as int),
    {
        let ghost old_titles = self.titles.deep_view();
        let t = self.titles.remove(i);
        self.entries.remove(i);
        assert(self.titles.deep_view() =~= old_titles.remove(i as int));
        proof {
            let nt = self.titles.deep_view();
            assert forall|a: int, b: int| 0 <= a < nt.len() && 0 <= b < nt.len() && a != b implies nt[a] != nt[b] by {
                let oa = if a < i { a } else { a + 1 };
                let ob = if b < i { b } else { b + 1 };
                assert(nt[a] == old_titles[oa]);
                assert(nt[b] == old_titles[ob]);
            }
        }
        t
    }

    /// Sets the status of the list with the given title, if it is listed.
    pub fn set_status(&mut self, title: &str, status: &str)
        requires
            old(self).wf(),
        ensures
            final(self).wf(),
            final(self).titles@ == old(self).titles@,
            final(self).entries@.len() == old(self).entries@.len(),
            match old(self).index_of(title@) {
                Some(k) => {
                    &&& final(self).entries@[k].status@ == status@
                    &&& final(self).entries@[k].url@ == old(self).entries@[k].url@
                    &&& final(self).entries@[k].folder@ == old(self).entries@[k].folder@
                    &&& final(self).entries@[k].label@ == old(self).entries@[k].label@
                    &&& forall|j: int| 0 <= j < old(self).entries@.len() && j != k ==> #[trigger] final(self).entries@[j] == old(self).entries@[j]
                },
                None => final(self).entries@ == old(self).entries@,
            },
    {
        proof {
            lemma_first_index(self.titles.deep_view(), title@);
        }
        match self.position(title) {
            Some(k) => {
                let mut e = self.entries[k].duplicate();
                e.status = copy_str(status);
                self.entries.set(k, e);
            },
            None => {},
        }
    }

    /// Takes in a shared list: under its folder name, replacing the entry of
    /// a title already listed, or added at the end.
    pub fn import_entry(&mut self, entry: ConfigEntry)
        requires
            old(self).wf(),
        ensures
            final(self).wf(),
            imported(*old(self), entry, *final(self)),
    {
        proof {
            lemma_first_index(self.titles.deep_view(), entry.folder@);
        }
        match self.position(entry.folder.as_str()) {
            Some(k) => {
                self.entries.set(k, entry);
            },
            None => {
                let title = copy_str(entry.folder.as_str());
                self.add_entry(title.as_str(), entry);
            },
        }
    }

    /// The list view: a header, then for each entry its number, title,
    /// URL, folder, label and status (the status ends the line).
    pub fn list_config(&self) -> (r: Vec<String>)
        requires
            self.wf(),
        ensures
            r.deep_view() == list_header() + list_rows(
                self.titles.deep_view(),
                self.entries@,
                self.titles@.len() as nat,
            ),
    {
        proof {
            reveal_strlit("number");
            reveal_strlit("title");
            reveal_strlit("URL");
            reveal_strlit("folder");
            reveal_strlit("label");
            reveal_strlit("status");
            reveal_strlit("\n");
        }
        let mut out: Vec<String> = Vec::new();
        out.push(lit("number"));
        out.push(lit("title"));
        out.push(lit("URL"));
        out.push(lit("folder"));
        out.push(lit("label"));
        out.push(lit("status"));
        out.push(lit("\n"));
        assert(out.deep_view() =~= list_header());
        let n = self.titles.len();
        for i in 0..n
            invariant
                n == self.titles@.len(),
                self.wf(),
                out.deep_view() =~= list_header() + list_rows(
                    self.titles.deep_view(),
                    self.entries@,
                    i as nat,
                ),
        {
            proof {
                reveal_strlit("\n");
            }
            let e = &self.entries[i];
            let ghost before = out.deep_view();
            out.push(decimal_string(i));
            out.push(copy_str(self.titles[i].as_str()));
            out.push(copy_str(e.url.as_str()));
            out.push(copy_str(e.folder.as_str()));
            out.push(copy_str(e.label.as_str()));
            let mut st = copy_str(e.status.as_str());
            push_str(&mut st, "\n");
            out.push(st);
            proof {
                assert(self.titles.deep_view()[i as int] == self.titles@[i as int]@);
                assert(out.deep_view() =~= before + list_row(
                    i as nat,
                    self.titles.deep_view()[i as int],
                    self.entries@[i as int],
                ));
            }
        }
        out
    }

    /// The position of a title, if it is listed.
    pub fn position(&self, title: &str) -> (r: Option<usize>)
        ensures
            match r {
                Some(i) => self.index_of(title@) == Some(i as int),
                None => self.index_of(title@) is None,
            },
    {
        let n = self.titles.len();
        proof {
            lemma_first_index(self.titles.deep_view(), title@);
        }
        for i in 0..n
            invariant
                n == self.titles@.len(),
                forall|j: int| 0 <= j < i ==> self.titles.deep_view()[j] != title@,
                match first_index(self.titles.deep_view(), title@) {
                    Some(k) => 0 <= k < n && self.titles.deep_view()[k] == title@ && forall|j: int|
                        0 <= j < k ==> self.titles.deep_view()[j] != title@,
                    None => forall|j: int| 0 <= j < n ==> self.titles.deep_view()[j] != title@,
                },
        {
            assert(self.titles.deep_view()[i as int] == self.titles@[i as int]@);
            if str_eq(self.titles[i].as_str(), title) {
                return Some(i);
            }
        }
        None
    }

    /// Whether a title is listed.
    pub fn has_title(&self, title: &str) -> (r: bool)
        ensures
            r == (self.index_of(title@) is Some),
    {
        self.position(title).is_some()
    }

    /// The first entry fetched from a URL.
    pub fn find_url(&self, url: &str) -> (r: Option<usize>)
        ensures
            match r {
                Some(i) => find_url(self.entries@, url@) == Some(i as int),
                None => find_url(self.entries@, url@) is None,
            },
    {
        let n = self.entries.len();
        proof {
            lemma_find_url(self.entries@, url@);
        }
        for i in 0..n
            invariant
                n == self.entries@.len(),
                forall|j: int| 0 <= j < i ==> self.entries@[j].url@ != url@,
                match find_url(self.entries@, url@) {
                    Some(k) => 0 <= k < n && self.entries@[k].url@ == url@ && forall|j: int|
                        0 <= j < k ==> self.entries@[j].url@ != url@,
                    None => forall|j: int| 0 <= j < n ==> self.entries@[j].url@ != url@,
                },
        {
            if str_eq(self.entries[i].url.as_str(), url) {
                return Some(i);
            }
        }
        None
    }

    /// The fields of a label, leaving out the `,`-pieces that mention
    /// `placeholder`.
    pub fn label_parts(label: &str, placeholder: &str) -> (r: Vec<String>)
        ensures
            r.deep_view() == label_parts(label@, placeholder@),
            r@.len() >= 1,
    {
        let pieces = split_str(label, ',');
        let mut kept: Vec<String> = Vec::new();
        let n = pieces.len();
        assert(pieces.deep_view() =~= split(label@, ','));
        for i in 0..n
            invariant
                n == pieces@.len(),
                pieces.deep_view() == split(label@, ','),
                kept.deep_view() =~= drop_containing(split(label@, ',').take(i as int), placeholder@),
        {
            proof {
                let s = split(label@, ',');
                assert(s.take(i + 1).drop_last() =~= s.take(i as int));
                assert(s.take(i + 1).last() == pieces@[i as int]@);
            }
            if !str_contains(pieces[i].as_str(), placeholder) {
                kept.push(copy_str(pieces[i].as_str()));
            }
        }
        assert(split(label@, ',').take(n as int) =~= split(label@, ','));
        let joined = concat_strs(&kept);
        let fields = split_str(joined.as_str(), ':');
        proof {
            lemma_split_nonempty(joined@, ':');
        }
        let mut out: Vec<String> = Vec::new();
        let m = fields.len();
        for i in 0..m
            invariant
                m == fields@.len(),
                m == split(joined@, ':').len(),
                forall|k: int| 0 <= k < m ==> #[trigger] fields@[k]@ == split(joined@, ':')[k],
                out@.len() == i,
                forall|k: int| 0 <= k < i ==> #[trigger] out@[k]@ == trim(split(joined@, ':')[k]),
        {
            out.push(trim_str(fields[i].as_str()));
        }
        assert(out.deep_view() =~= label_parts(label@, placeholder@));
        out
    }

    /// The day a text names (`%Y%m%d`), or `today`.
    fn day_or(text: &str, today: i32) -> (r: i32)
        requires
            valid_day(today as int),
        ensures
            r == day_or(text@, today as int),
            valid_day(r as int),
    {
        match parse_ymd(text) {
            Some(d) => d,
            None => today,
        }
    }

    /// One step of a date stream.
    fn next_day(d: i32, step: &Step) -> (r: Option<i32>)
        requires
            valid_day(d as int),
        ensures
            match r {
                Some(x) => next_day(d as int, *step) == Some(x as int) && x > d && valid_day(x as int),
                None => next_day(d as int, *step) is None,
            },
    {
        match step {
            Step::Month => {
                match add_days(d, 30) {
                    Some(later) => match add_months(d, 1) {
                        Some(x) => Some(x),
                        None => Some(later),
                    },
                    None => None,
                }
            },
            Step::Week => add_days(d, 7),
            Step::Day => add_days(d, 1),
        }
    }

    fn step_of(s: &str) -> (r: Step)
        ensures
            r == step_of(s@),
    {
        proof {
            reveal_strlit("M");
            reveal_strlit("W");
        }
        if str_eq(s, "M") {
            Step::Month
        } else if str_eq(s, "W") {
            Step::Week
        } else {
            Step::Day
        }
    }

    /// The `%Y%m%d` dates from `start`, stepping while before `end`.
    #[verifier::rlimit(40)]
    pub fn date_series(start: i32, end: i32, step: &Step) -> (r: Vec<String>)
        requires
            valid_day(start as int),
        ensures
            r.deep_view() == date_series(start as int, end as int, *step),
    {
        let mut out: Vec<String> = Vec::new();
        let mut cur = start;
        let ghost s0 = start as int;
        assert(out.deep_view() + date_series(cur as int, end as int, *step) =~= date_series(
            s0,
            end as int,
            *step,
        ));
        loop
            invariant
                valid_day(cur as int),
                s0 == start as int,
                out.deep_view() + date_series(cur as int, end as int, *step) == date_series(
                    s0,
                    end as int,
                    *step,
                ),
            decreases end - cur,
        {
            if cur >= end {
                assert(date_series(cur as int, end as int, *step) =~= Seq::<Seq<char>>::empty());
                assert(out.deep_view() + Seq::<Seq<char>>::empty() =~= out.deep_view());
                return out;
            }
            let ghost before = out.deep_view();
            out.push(format_ymd(cur));
            match Self::next_day(cur, step) {
                Some(x) => {
                    if x >= end {
                        assert(date_series(cur as int, end as int, *step) =~= seq![ymd_text(cur as int)]);
                        assert(out.deep_view() =~= before + date_series(cur as int, end as int, *step));
                        return out;
                    }
                    assert(out.deep_view() + date_series(x as int, end as int, *step) =~= before
                        + date_series(cur as int, end as int, *step));
                    cur = x;
                },
                None => {
                    assert(date_series(cur as int, end as int, *step) =~= seq![ymd_text(cur as int)]);
                    assert(out.deep_view() =~= before + date_series(cur as int, end as int, *step));
                    return out;
                },
            }
        }
    }

    fn one_empty() -> (r: Vec<String>)
        ensures
            r.deep_view() == one_empty(),
    {
        let mut v: Vec<String> = Vec::new();
        v.push(String::new());
        assert(v.deep_view() =~= one_empty());
        v
    }

    /// The first and last day of a date stream.
    pub fn date_bounds(st_ed: &str, status: &str, format: &str, today: i32) -> (r: (i32, i32))
        requires
            valid_day(today as int),
        ensures
            (r.0 as int, r.1 as int) == date_bounds(st_ed@, status@, format@, today as int),
            valid_day(r.0 as int),
            valid_day(r.1 as int),
    {
        proof {
            reveal_strlit("yyyy");
        }
        if match_text(RANGE_PATTERN, st_ed) == Some(true) {
            let sp = split_str(st_ed, '~');
            proof {
                lemma_split_nonempty(st_ed@, '~');
            }
            let a = Self::day_or(sp[0].as_str(), today);
            let b = if sp.len() >= 2 {
                Self::day_or(sp[1].as_str(), today)
            } else {
                proof {
                    reveal_strlit("");
                }
                Self::day_or("", today)
            };
            proof {
                reveal_strlit("");
                assert(""@ =~= Seq::<char>::empty());
            }
            (a, b)
        } else {
            let s = Self::day_or(status, today);
            let s2 = if !str_contains(format, "yyyy") {
                match add_months(s, MINGUO_MONTHS) {
                    Some(d) => d,
                    None => s,
                }
            } else {
                s
            };
            (s2, today)
        }
    }

    /// The `%Y%m%d` dates a URL is fetched for. A URL without `@date` (or
    /// whose list is unknown, or whose label has no step) has the one empty
    /// date. An explicit `start~end` range is used as given; otherwise the
    /// stream runs from the list's status to `today` (the status is moved
    /// from the Republic of China era when the label's date format has no
    /// `yyyy`). Days that do not parse count as today. The stream stops where
    /// the next step would leave chrono's calendar.
    pub fn stream_date(&self, url_in: &str, st_ed_in: &str, today: i32) -> (r: Vec<String>)
        requires
            valid_day(today as int),
        ensures
            r.deep_view() == spec_stream_date(self.entries@, url_in@, st_ed_in@, today as int),
    {
        proof {
            reveal_strlit("@date");
        }
        if !str_contains(url_in, "@date") {
            return Self::one_empty();
        }
        match self.find_url(url_in) {
            None => Self::one_empty(),
            Some(i) => {
                proof {
                    lemma_find_url(self.entries@, url_in@);
                }
                let e = &self.entries[i];
                let parts = Self::label_parts(e.label.as_str(), "@date");
                if parts.len() < 3 {
                    return Self::one_empty();
                }
                assert(parts.deep_view()[1] == parts@[1]@ && parts.deep_view()[2] == parts@[2]@);
                let b = Self::date_bounds(st_ed_in, e.status.as_str(), parts[1].as_str(), today);
                let step = Self::step_of(parts[2].as_str());
                Self::date_series(b.0, b.1, &step)
            },
        }
    }

    /// A pattern without its year letters.
    pub fn without_year(p: &str) -> (r: String)
        ensures
            r@ == without_year(p@),
    {
        proof {
            reveal_strlit("yyyy");
            reveal_strlit("yyy");
            reveal_strlit("yy");
            reveal_strlit("");
        }
        let a = replace_str(p, "yyyy", "");
        let b = replace_str(a.as_str(), "yyy", "");
        let c = replace_str(b.as_str(), "yy", "");
        assert(""@ =~= Seq::<char>::empty());
        c
    }

    /// A `%Y%m%d` date written in the date format of the URL's label. A
    /// format without `yyyy` takes the year of the Republic of China era,
    /// put in front when the format starts with `yy` and behind otherwise.
    /// An empty date, an unknown URL, a label without a format, and a format
    /// that chrono reports an error for leave the date as it is; a date that
    /// does not parse counts as today.
    pub fn to_origin(&self, date_in: &str, url_in: &str, today: i32) -> (r: String)
        requires
            valid_day(today as int),
        ensures
            r@ == spec_to_origin(self.entries@, date_in@, url_in@, today as int),
    {
        if date_in.is_empty() {
            return copy_str(date_in);
        }
        proof {
            reveal_strlit("@num");
            reveal_strlit("yyyy");
            reveal_strlit("yy");
        }
        match self.find_url(url_in) {
            None => copy_str(date_in),
            Some(i) => {
                proof {
                    lemma_find_url(self.entries@, url_in@);
                }
                let parts = Self::label_parts(self.entries[i].label.as_str(), "@num");
                if parts.len() < 2 {
                    return copy_str(date_in);
                }
                assert(parts.deep_view()[1] == parts@[1]@);
                let pattern = parts[1].as_str();
                let d = Self::day_or(date_in, today);
                if !str_contains(pattern, "yyyy") {
                    let year = year_of(d);
                    let minguo = signed_decimal_string(year - 1911);
                    let pwy = Self::without_year(pattern);
                    match format_day(d, pwy.as_str()) {
                        Some(f) => {
                            let pc = to_chars(pattern);
                            let yy = to_chars("yy");
                            if starts_with_chars(pc.as_slice(), yy.as_slice()) {
                                let mut out = minguo;
                                push_str(&mut out, f.as_str());
                                out
                            } else {
                                let mut out = f;
                                push_str(&mut out, minguo.as_str());
                                out
                            }
                        },
                        None => copy_str(date_in),
                    }
                } else {
                    match format_day(d, pattern) {
                        Some(f) => f,
                        None => copy_str(date_in),
                    }
                }
            },
        }
    }

    /// The items of a column that match a pattern, each cut at its first
    /// ideographic space.
    pub fn codes_of(column: &Vec<String>, pattern: &str) -> (r: Vec<String>)
        ensures
            r.deep_view() == codes_of(column.deep_view(), pattern@),
    {
        let mut out: Vec<String> = Vec::new();
        let compiled = Pattern::compile(pattern);
        let n = column.len();
        for i in 0..n
            invariant
                n == column@.len(),
                compiled is Some <==> regex_valid(pattern@),
                compiled matches Some(p) ==> p@ == pattern@,
                out.deep_view() =~= codes_of(column.deep_view().take(i as int), pattern@),
        {
            proof {
                let c = column.deep_view();
                assert(c.take(i + 1).drop_last() =~= c.take(i as int));
                assert(c.take(i + 1).last() == column@[i as int]@);
            }
            match &compiled {
                Some(p) => {
                    if p.is_match(column[i].as_str()) {
                        let pieces = split_str(column[i].as_str(), '\u{3000}');
                        proof {
                            lemma_split_nonempty(column@[i as int]@, '\u{3000}');
                        }
                        out.push(copy_str(pieces[0].as_str()));
                    }
                },
                None => {},
            }
        }
        assert(column.deep_view().take(n as int) =~= column.deep_view());
        out
    }

    /// The stock numbers for a market name: `listed`/`上市`, `OTC`/`上櫃`,
    /// or both markets for any other name.
    pub fn stock_num(&self, name_in: &str, lists: &CodeLists) -> (r: Vec<String>)
        ensures
            r.deep_view() == spec_stock_num(name_in@, *lists),
    {
        proof {
            reveal_strlit("listed");
            reveal_strlit("上市");
            reveal_strlit("OTC");
            reveal_strlit("上櫃");
        }
        if str_eq(name_in, "listed") || str_eq(name_in, "上市") {
            Self::codes_of(&lists.listed, STOCK_LINE_PATTERN)
        } else if str_eq(name_in, "OTC") || str_eq(name_in, "上櫃") {
            Self::codes_of(&lists.otc, STOCK_LINE_PATTERN)
        } else {
            let mut a = Self::codes_of(&lists.listed, STOCK_LINE_PATTERN);
            let mut b = Self::codes_of(&lists.otc, STOCK_LINE_PATTERN);
            let ghost av = a.deep_view();
            let ghost bv = b.deep_view();
            a.append(&mut b);
            assert(a.deep_view() =~= av + bv);
            a
        }
    }

    /// The fund numbers.
    pub fn etf_num(&self, lists: &CodeLists) -> (r: Vec<String>)
        ensures
            r.deep_view() == codes_of(lists.etf.deep_view(), ETF_LINE_PATTERN@),
    {
        Self::codes_of(&lists.etf, ETF_LINE_PATTERN)
    }

    /// The numbers a URL is fetched for. A URL without `@num` has the one
    /// empty number; an explicit `a.b.c` list is used as given; otherwise the
    /// list's label decides: stock numbers of a market, fund numbers, or the
    /// one empty number.
    pub fn stream_num(&self, url_in: &str, num_in: &str, lists: &CodeLists) -> (r: Vec<String>)
        ensures
            r.deep_view() == spec_stream_num(self.entries@, url_in@, num_in@, *lists),
    {
        proof {
            reveal_strlit("@num");
            reveal_strlit("stock");
            reveal_strlit("ETF");
        }
        if !str_contains(url_in, "@num") {
            return Self::one_empty();
        }
        if match_text(NUM_LIST_PATTERN, num_in) == Some(true) {
            let v = split_str(num_in, '.');
            assert(v.deep_view() =~= split(num_in@, '.'));
            return v;
        }
        match self.find_url(url_in) {
            None => Self::one_empty(),
            Some(i) => {
                proof {
                    lemma_find_url(self.entries@, url_in@);
                }
                let parts = Self::label_parts(self.entries[i].label.as_str(), "@num");
                assert(parts.deep_view()[0] == parts@[0]@);
                if str_eq(parts[0].as_str(), "stock") {
                    if parts.len() > 1 {
                        assert(parts.deep_view()[1] == parts@[1]@);
                        self.stock_num(parts[1].as_str(), lists)
                    } else {
                        proof {
                            reveal_strlit("");
                            assert(""@ =~= Seq::<char>::empty());
                        }
                        self.stock_num("", lists)
                    }
                } else if str_eq(parts[0].as_str(), "ETF") {
                    self.etf_num(lists)
                } else {
                    Self::one_empty()
                }
            },
        }
    }

    /// The relay saved under a name in the relay file (its text, when it
    /// could be read); all fields empty where the file or the name is missing.
    pub fn relay(relays: &Option<String>, name_in: &str) -> (r: Relay)
        ensures
            (r.url@, r.request@, r.date@, r.num@) == spec_relay(opt_view(*relays), name_in@),
    {
        match relays {
            Some(text) => {
                if json_has_key(text.as_str(), name_in) {
                    proof {
                        reveal_strlit("/URL");
                        reveal_strlit("/request");
                        reveal_strlit("/date");
                        reveal_strlit("/num");
                    }
                    let url = Self::field(text.as_str(), name_in, "/URL");
                    let request = Self::field(text.as_str(), name_in, "/request");
                    let date = Self::field(text.as_str(), name_in, "/date");
                    let num = Self::field(text.as_str(), name_in, "/num");
                    Relay { url, request, date, num }
                } else {
                    Relay { url: String::new(), request: String::new(), date: String::new(), num: String::new() }
                }
            },
            None => Relay { url: String::new(), request: String::new(), date: String::new(), num: String::new() },
        }
    }

    fn field(text: &str, name: &str, key: &str) -> (r: String)
        ensures
            r@ == field_or_empty(json_pointer_text(text@, seq!['/'] + name@ + key@)),
    {
        let mut ptr = String::new();
        push_char(&mut ptr, '/');
        push_str(&mut ptr, name);
        push_str(&mut ptr, key);
        assert(ptr@ =~= seq!['/'] + name@ + key@);
        match json_string_at(text, ptr.as_str()) {
            Some(s) => s,
            None => String::new(),
        }
    }
}

} // verus!
