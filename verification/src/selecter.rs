use vstd::prelude::*;
use crate::config::{
    find_url, lemma_find_url, spec_relay, spec_stream_date, spec_stream_num, CodeLists, Config,
    ConfigEntry, Relay,
};
use crate::dates::valid_day;
use crate::lib_utils::LibUtils;
use crate::manager::{assoc_get, folder_dir, job_path, Manager};
use crate::text::{
    contains, copy_str, drop_empty, lemma_split_nonempty, lemma_split_pat_nonempty, opt_view,
    push_char, push_str, split, split_pat, split_pat_str, split_str, str_contains, str_eq, trim,
    trim_str,
};

verus! {

/// A selection of columns from downloaded lists: per source its URL,
/// number and date arguments and requested fields, and the selected data
/// column by column.
pub struct Selecter {
    pub urls: Vec<String>,
    pub nums: Vec<String>,
    pub dates: Vec<String>,
    pub req: Vec<Vec<String>>,
    pub data: Vec<Vec<String>>,
    pub check_date: bool,
}

/// The settings of one source while its command is read.
pub struct CmdFields {
    pub url: String,
    pub request: String,
    pub date: String,
    pub num: String,
    pub withdate: Option<String>,
}

/// The view of a command's settings: URL, request, date, number, `withdate`.
pub open spec fn fields_view(f: CmdFields) -> (Seq<char>, Seq<char>, Seq<char>, Seq<char>, Option<Seq<char>>) {
    (f.url@, f.request@, f.date@, f.num@, opt_view(f.withdate))
}

/// The `-`-separated pieces of a command, trimmed.
pub open spec fn cmd_pieces(cmd: Seq<char>) -> Seq<Seq<char>> {
    split(cmd, '-').map_values(|p: Seq<char>| trim(p))
}

/// One `key=value` piece applied to the settings; other pieces change nothing.
pub open spec fn apply_kv(
    st: (Seq<char>, Seq<char>, Seq<char>, Seq<char>, Option<Seq<char>>),
    piece: Seq<char>,
) -> (Seq<char>, Seq<char>, Seq<char>, Seq<char>, Option<Seq<char>>) {
    let kv = split(piece, '=');
    if kv.len() == 2 {
        let k = trim(kv[0]);
        let v = trim(kv[1]);
        if k == "URL"@ {
            (v, st.1, st.2, st.3, st.4)
        } else if k == "request"@ {
            (st.0, v, st.2, st.3, st.4)
        } else if k == "date"@ {
            (st.0, st.1, v, st.3, st.4)
        } else if k == "num"@ {
            (st.0, st.1, st.2, v, st.4)
        } else if k == "withdate"@ {
            (st.0, st.1, st.2, st.3, Some(v))
        } else {
            st
        }
    } else {
        st
    }
}

pub open spec fn apply_kvs(
    st: (Seq<char>, Seq<char>, Seq<char>, Seq<char>, Option<Seq<char>>),
    pieces: Seq<Seq<char>>,
) -> (Seq<char>, Seq<char>, Seq<char>, Seq<char>, Option<Seq<char>>)
    decreases pieces.len(),
{
    if pieces.len() == 0 {
        st
    } else {
        apply_kv(apply_kvs(st, pieces.drop_last()), pieces.last())
    }
}

/// The settings of a command `name -key=value ...`: the relay saved for the
/// name (its URL being the name itself when the relay has none), then the
/// given values.
pub open spec fn cmd_state(cmd: Seq<char>, relays: Option<Seq<char>>) -> (
    Seq<char>,
    Seq<char>,
    Seq<char>,
    Seq<char>,
    Option<Seq<char>>,
) {
    let p = cmd_pieces(cmd);
    apply_kvs(initial_state(relays, p[0]), p.skip(1))
}

/// The settings a name starts with: its relay, the URL being the name
/// itself when the relay has none.
pub open spec fn initial_state(relays: Option<Seq<char>>, name: Seq<char>) -> (
    Seq<char>,
    Seq<char>,
    Seq<char>,
    Seq<char>,
    Option<Seq<char>>,
) {
    let r = spec_relay(relays, name);
    let url = if r.0.len() == 0 {
        name
    } else {
        r.0
    };
    (url, r.1, r.2, r.3, None)
}

/// A command piece that sets the given key: `key=value`.
pub open spec fn sets_key(piece: Seq<char>, key: Seq<char>) -> bool {
    let kv = split(piece, '=');
    kv.len() == 2 && trim(kv[0]) == key
}

proof fn lemma_kvs_keep(
    st: (Seq<char>, Seq<char>, Seq<char>, Seq<char>, Option<Seq<char>>),
    pieces: Seq<Seq<char>>,
)
    ensures
        (forall|j: int| 0 <= j < pieces.len() ==> !sets_key(#[trigger] pieces[j], "URL"@)) ==> apply_kvs(
            st,
            pieces,
        ).0 == st.0,
        (forall|j: int| 0 <= j < pieces.len() ==> !sets_key(#[trigger] pieces[j], "withdate"@)) ==> apply_kvs(
            st,
            pieces,
        ).4 == st.4,
        (forall|j: int| 0 <= j < pieces.len() ==> !sets_key(#[trigger] pieces[j], "request"@)) ==> apply_kvs(
            st,
            pieces,
        ).1 == st.1,
        (forall|j: int| 0 <= j < pieces.len() ==> !sets_key(#[trigger] pieces[j], "date"@)) ==> apply_kvs(
            st,
            pieces,
        ).2 == st.2,
        (forall|j: int| 0 <= j < pieces.len() ==> !sets_key(#[trigger] pieces[j], "num"@)) ==> apply_kvs(
            st,
            pieces,
        ).3 == st.3,
    decreases pieces.len(),
{
    if pieces.len() > 0 {
        lemma_kvs_keep(st, pieces.drop_last());
        assert forall|j: int| 0 <= j < pieces.len() - 1 implies pieces.drop_last()[j] == pieces[j] by {}
        assert(pieces.last() == pieces[pieces.len() - 1]);
    }
}

/// A command without `-date=` keeps the date range its relay saved (empty
/// without a relay), and likewise for `-request=` and `-num=`: each of these
/// settings is the relay's unless the command gives it. Without `-URL=` the
/// URL is the relay's, or the name itself where the relay has none; without
/// `-withdate=` nothing is said of the date column.
pub proof fn law_command_keeps_relay(cmd: Seq<char>, relays: Option<Seq<char>>)
    ensures
        cmd_pieces(cmd).len() >= 1,
        (forall|j: int| 1 <= j < cmd_pieces(cmd).len() ==> !sets_key(#[trigger] cmd_pieces(cmd)[j], "date"@))
            ==> cmd_state(cmd, relays).2 == spec_relay(relays, cmd_pieces(cmd)[0]).2,
        (forall|j: int| 1 <= j < cmd_pieces(cmd).len() ==> !sets_key(#[trigger] cmd_pieces(cmd)[j], "request"@))
            ==> cmd_state(cmd, relays).1 == spec_relay(relays, cmd_pieces(cmd)[0]).1,
        (forall|j: int| 1 <= j < cmd_pieces(cmd).len() ==> !sets_key(#[trigger] cmd_pieces(cmd)[j], "num"@))
            ==> cmd_state(cmd, relays).3 == spec_relay(relays, cmd_pieces(cmd)[0]).3,
        (forall|j: int| 1 <= j < cmd_pieces(cmd).len() ==> !sets_key(#[trigger] cmd_pieces(cmd)[j], "URL"@))
            ==> cmd_state(cmd, relays).0 == (if spec_relay(relays, cmd_pieces(cmd)[0]).0.len() == 0 {
            cmd_pieces(cmd)[0]
        } else {
            spec_relay(relays, cmd_pieces(cmd)[0]).0
        }),
        (forall|j: int| 1 <= j < cmd_pieces(cmd).len() ==> !sets_key(#[trigger] cmd_pieces(cmd)[j], "withdate"@))
            ==> cmd_state(cmd, relays).4 is None,
{
    lemma_split_nonempty(cmd, '-');
    let p = cmd_pieces(cmd);
    let rest = p.skip(1);
    lemma_kvs_keep(initial_state(relays, p[0]), rest);
    assert forall|j: int| 0 <= j < rest.len() implies #[trigger] rest[j] == p[j + 1] by {}
    if forall|j: int| 1 <= j < p.len() ==> !sets_key(#[trigger] p[j], "date"@) {
        assert forall|j: int| 0 <= j < rest.len() implies !sets_key(#[trigger] rest[j], "date"@) by {
            assert(rest[j] == p[j + 1]);
        }
    }
    if forall|j: int| 1 <= j < p.len() ==> !sets_key(#[trigger] p[j], "request"@) {
        assert forall|j: int| 0 <= j < rest.len() implies !sets_key(#[trigger] rest[j], "request"@) by {
            assert(rest[j] == p[j + 1]);
        }
    }
    if forall|j: int| 1 <= j < p.len() ==> !sets_key(#[trigger] p[j], "URL"@) {
        assert forall|j: int| 0 <= j < rest.len() implies !sets_key(#[trigger] rest[j], "URL"@) by {
            assert(rest[j] == p[j + 1]);
        }
    }
    if forall|j: int| 1 <= j < p.len() ==> !sets_key(#[trigger] p[j], "withdate"@) {
        assert forall|j: int| 0 <= j < rest.len() implies !sets_key(#[trigger] rest[j], "withdate"@) by {
            assert(rest[j] == p[j + 1]);
        }
    }
    if forall|j: int| 1 <= j < p.len() ==> !sets_key(#[trigger] p[j], "num"@) {
        assert forall|j: int| 0 <= j < rest.len() implies !sets_key(#[trigger] rest[j], "num"@) by {
            assert(rest[j] == p[j + 1]);
        }
    }
}

/// The command turns the date column off.
pub open spec fn withdate_off(w: Option<Seq<char>>) -> bool {
    w matches Some(v) && (contains(v, "false"@) || contains(v, "fales"@))
}

/// The requested fields: `ALL` stands for the fields of the list's
/// `index.csv` (when it names any).
pub open spec fn resolved(
    req: Seq<Seq<char>>,
    url: Seq<char>,
    entries: Seq<ConfigEntry>,
    indexes: Seq<(String, String)>,
) -> Seq<Seq<char>> {
    if req.len() > 0 && req[0] == "ALL"@ {
        let folder = match find_url(entries, url) {
            Some(k) => entries[k].folder@,
            None => Seq::empty(),
        };
        let f = drop_empty(split(assoc_get(indexes, folder), ',').map_values(|p: Seq<char>| trim(p)));
        if f.len() > 0 {
            f
        } else {
            req
        }
    } else {
        req
    }
}

/// The columns of a source: its fields, and the date column first when the
/// date stream is open-ended and dates are wanted.
pub open spec fn cols_of(req_len: nat, date: Seq<char>, check_date: bool) -> nat {
    req_len + if check_date && date.len() == 0 {
        1nat
    } else {
        0nat
    }
}

/// The columns of the first `n` sources.
pub open spec fn cols_upto(req: Seq<Vec<String>>, dates: Seq<String>, check_date: bool, n: nat) -> nat
    decreases n,
{
    if n == 0 {
        0
    } else {
        cols_upto(req, dates, check_date, (n - 1) as nat) + cols_of(
            req[n - 1]@.len(),
            dates[n - 1]@,
            check_date,
        )
    }
}

pub open spec fn cols_before(s: Selecter, n: nat) -> nat {
    cols_upto(s.req@, s.dates@, s.check_date, n)
}

/// The rows a parsed file holds: as many as its first column (none for a
/// file that could not be read).
pub open spec fn file_rows(parsed: Option<Seq<Seq<Seq<char>>>>) -> nat {
    match parsed {
        Some(p) => if p.len() > 0 {
            p[0].len()
        } else {
            0
        },
        None => 0,
    }
}

/// Column `k` of what one file contributes to its source: the date repeated
/// (as column 0, when the date column is wanted), then each field's values,
/// `null` where a field's column is shorter.
pub open spec fn file_col(parsed: Option<Seq<Seq<Seq<char>>>>, k: int, date: Seq<char>, with_date: bool) -> Seq<Seq<char>> {
    let rows = file_rows(parsed);
    if with_date && k == 0 {
        Seq::new(rows, |r: int| date)
    } else {
        let c = if with_date {
            k - 1
        } else {
            k
        };
        Seq::new(
            rows,
            |r: int|
                match parsed {
                    Some(p) => if 0 <= c < p.len() && r < p[c].len() {
                        p[c][r]
                    } else {
                        "null"@
                    },
                    None => "null"@,
                },
        )
    }
}

/// Column `k` of a source over its files, file after file.
pub open spec fn source_col(
    parsed: Seq<Option<Seq<Seq<Seq<char>>>>>,
    dates: Seq<Seq<char>>,
    k: int,
    with_date: bool,
) -> Seq<Seq<char>>
    decreases parsed.len(),
{
    if parsed.len() == 0 {
        Seq::empty()
    } else {
        source_col(parsed.drop_last(), dates.drop_last(), k, with_date) + file_col(
            parsed.last(),
            k,
            dates.last(),
            with_date,
        )
    }
}

pub open spec fn parsed_view(p: Option<Vec<Vec<String>>>) -> Option<Seq<Seq<Seq<char>>>> {
    match p {
        Some(v) => Some(v.deep_view()),
        None => None,
    }
}

/// The header of the export: per source `pathIn` for its date column, then
/// its fields.
pub open spec fn export_header(s: Selecter, n: nat) -> Seq<Seq<char>>
    decreases n,
{
    if n == 0 {
        Seq::empty()
    } else {
        export_header(s, (n - 1) as nat) + (if s.check_date && s.dates@[n - 1]@.len() == 0 {
            seq!["pathIn"@]
        } else {
            Seq::empty()
        }) + s.req@[n - 1].deep_view()
    }
}

/// The longest column.
pub open spec fn max_len(d: Seq<Seq<Seq<char>>>) -> nat
    decreases d.len(),
{
    if d.len() == 0 {
        0
    } else {
        let m = max_len(d.drop_last());
        if d.last().len() > m {
            d.last().len()
        } else {
            m
        }
    }
}

/// Row `r` of the export: each column's value, empty where it is shorter.
pub open spec fn export_row(d: Seq<Seq<Seq<char>>>, r: int) -> Seq<Seq<char>> {
    Seq::new(d.len(), |c: int| if r < d[c].len() { d[c][r] } else { Seq::empty() })
}

impl Selecter {
    /// The settings of one command.
    pub fn read_command(cmd: &str, relays: &Option<String>) -> (r: CmdFields)
        ensures
            fields_view(r) == cmd_state(cmd@, opt_view(*relays)),
    {
        let raw = split_str(cmd, '-');
        proof {
            lemma_split_nonempty(cmd@, '-');
        }
        let ghost pieces = cmd_pieces(cmd@);
        let name = trim_str(raw[0].as_str());
        let rel: Relay = Config::relay(relays, name.as_str());
        let url = if rel.url.as_str().is_empty() {
            copy_str(name.as_str())
        } else {
            rel.url
        };
        let mut st = CmdFields { url, request: rel.request, date: rel.date, num: rel.num, withdate: None };
        assert(pieces[0] == trim(raw@[0]@));
        assert(fields_view(st) == initial_state(opt_view(*relays), pieces[0]));
        let n = raw.len();
        assert(pieces.skip(1).take(0) =~= Seq::<Seq<char>>::empty());
        for i in 1..n
            invariant
                n == raw@.len(),
                n == split(cmd@, '-').len(),
                pieces == cmd_pieces(cmd@),
                forall|k: int| 0 <= k < n ==> #[trigger] raw@[k]@ == split(cmd@, '-')[k],
                fields_view(st) == apply_kvs(
                    initial_state(opt_view(*relays), pieces[0]),
                    pieces.skip(1).take(i - 1),
                ),
        {
            proof {
                let t = pieces.skip(1);
                assert(t.take(i as int).drop_last() =~= t.take(i - 1));
                assert(t.take(i as int).last() == trim(raw@[i as int]@));
            }
            let piece = trim_str(raw[i].as_str());
            Self::apply_kv(&mut st, piece.as_str());
        }
        assert(pieces.skip(1).take(n - 1) =~= pieces.skip(1));
        st
    }

    fn apply_kv(st: &mut CmdFields, piece: &str)
        ensures
            fields_view(*final(st)) == apply_kv(fields_view(*old(st)), piece@),
    {
        proof {
            reveal_strlit("URL");
            reveal_strlit("request");
            reveal_strlit("date");
            reveal_strlit("num");
            reveal_strlit("withdate");
        }
        let kv = split_str(piece, '=');
        if kv.len() == 2 {
            let k = trim_str(kv[0].as_str());
            let v = trim_str(kv[1].as_str());
            if str_eq(k.as_str(), "URL") {
                st.url = v;
            } else if str_eq(k.as_str(), "request") {
                st.request = v;
            } else if str_eq(k.as_str(), "date") {
                st.date = v;
            } else if str_eq(k.as_str(), "num") {
                st.num = v;
            } else if str_eq(k.as_str(), "withdate") {
                st.withdate = Some(v);
            }
        }
    }

    fn withdate_off(w: &Option<String>) -> (r: bool)
        ensures
            r == withdate_off(opt_view(*w)),
    {
        match w {
            Some(v) => str_contains(v.as_str(), "false") || str_contains(v.as_str(), "fales"),
            None => false,
        }
    }

    /// The requested fields, with `ALL` resolved through the list's index.
    pub fn resolve_all(
        req: Vec<String>,
        url: &str,
        config: &Config,
        indexes: &Vec<(String, String)>,
    ) -> (r: Vec<String>)
        ensures
            r.deep_view() == resolved(req.deep_view(), url@, config.entries@, indexes@),
    {
        proof {
            reveal_strlit("ALL");
        }
        if req.len() == 0 || !str_eq(req[0].as_str(), "ALL") {
            return req;
        }
        let folder = match config.find_url(url) {
            Some(k) => {
                proof {
                    lemma_find_url(config.entries@, url@);
                }
                copy_str(config.entries[k].folder.as_str())
            },
            None => String::new(),
        };
        let content = Manager::lookup(indexes, folder.as_str());
        let pieces = split_str(content.as_str(), ',');
        let ghost tp = split(content@, ',').map_values(|p: Seq<char>| trim(p));
        let mut fields: Vec<String> = Vec::new();
        let n = pieces.len();
        for i in 0..n
            invariant
                n == pieces@.len(),
                n == split(content@, ',').len(),
                tp == split(content@, ',').map_values(|p: Seq<char>| trim(p)),
                forall|k: int| 0 <= k < n ==> #[trigger] pieces@[k]@ == split(content@, ',')[k],
                fields.deep_view() =~= drop_empty(tp.take(i as int)),
        {
            let t = trim_str(pieces[i].as_str());
            proof {
                assert(tp.take(i + 1).drop_last() =~= tp.take(i as int));
                assert(tp.take(i + 1).last() == t@);
            }
            if !t.as_str().is_empty() {
                fields.push(t);
            }
        }
        assert(tp.take(n as int) =~= tp);
        if fields.len() > 0 {
            fields
        } else {
            req
        }
    }

    /// A selection from commands `name -key=value ...` (the name of a saved
    /// relay, or a URL). Keys `URL`, `request` (fields joined by `.`), `date`,
    /// `num` and `withdate` are read; `withdate` holding `false` (or `fales`)
    /// in any command turns the date columns off. The data starts with one
    /// empty column per field, plus one per date column.
    pub fn new(
        cmd_in: &Vec<String>,
        relays: &Option<String>,
        config: &Config,
        indexes: &Vec<(String, String)>,
    ) -> (s: Selecter)
        ensures
            s.urls@.len() == cmd_in@.len(),
            s.nums@.len() == cmd_in@.len(),
            s.dates@.len() == cmd_in@.len(),
            s.req@.len() == cmd_in@.len(),
            forall|i: int| 0 <= i < cmd_in@.len() ==> {
                let st = #[trigger] cmd_state(cmd_in@[i]@, opt_view(*relays));
                &&& s.urls@[i]@ == st.0
                &&& s.dates@[i]@ == st.2
                &&& s.nums@[i]@ == st.3
                &&& s.req@[i].deep_view() == resolved(split(st.1, '.'), st.0, config.entries@, indexes@)
            },
            s.check_date == !exists|i: int| 0 <= i < cmd_in@.len() && withdate_off(
                #[trigger] cmd_state(cmd_in@[i]@, opt_view(*relays)).4,
            ),
            s.data@.len() == cols_before(s, cmd_in@.len() as nat),
            forall|c: int| 0 <= c < s.data@.len() ==> #[trigger] s.data@[c]@.len() == 0,
    {
        let mut urls: Vec<String> = Vec::new();
        let mut nums: Vec<String> = Vec::new();
        let mut dates: Vec<String> = Vec::new();
        let mut req: Vec<Vec<String>> = Vec::new();
        let mut check_date = true;
        let n = cmd_in.len();
        for i in 0..n
            invariant
                n == cmd_in@.len(),
                urls@.len() == i,
                nums@.len() == i,
                dates@.len() == i,
                req@.len() == i,
                forall|k: int| 0 <= k < i ==> {
                    let st = #[trigger] cmd_state(cmd_in@[k]@, opt_view(*relays));
                    &&& urls@[k]@ == st.0
                    &&& dates@[k]@ == st.2
                    &&& nums@[k]@ == st.3
                    &&& req@[k].deep_view() == split(st.1, '.')
                },
                check_date == !exists|k: int| 0 <= k < i && withdate_off(
                    #[trigger] cmd_state(cmd_in@[k]@, opt_view(*relays)).4,
                ),
        {
            let f = Self::read_command(cmd_in[i].as_str(), relays);
            let off = Self::withdate_off(&f.withdate);
            if off {
                check_date = false;
            }
            proof {
                let st = cmd_state(cmd_in@[i as int]@, opt_view(*relays));
                assert(opt_view(f.withdate) == st.4);
                assert(off == withdate_off(st.4));
                if off {
                    assert(withdate_off(cmd_state(cmd_in@[i as int]@, opt_view(*relays)).4));
                } else {
                    assert forall|k: int| 0 <= k < i + 1 && withdate_off(
                        #[trigger] cmd_state(cmd_in@[k]@, opt_view(*relays)).4,
                    ) implies k < i by {}
                }
            }
            let r = split_str(f.request.as_str(), '.');
            assert(r.deep_view() =~= split(f.request@, '.'));
            urls.push(f.url);
            nums.push(f.num);
            dates.push(f.date);
            req.push(r);
        }
        let mut resolved_req: Vec<Vec<String>> = Vec::new();
        for i in 0..n
            invariant
                n == cmd_in@.len(),
                urls@.len() == n,
                req@.len() == n,
                forall|k: int| 0 <= k < n ==> {
                    let st = #[trigger] cmd_state(cmd_in@[k]@, opt_view(*relays));
                    &&& urls@[k]@ == st.0
                    &&& req@[k].deep_view() == split(st.1, '.')
                },
                resolved_req@.len() == i,
                forall|k: int| 0 <= k < i ==> {
                    let st = #[trigger] cmd_state(cmd_in@[k]@, opt_view(*relays));
                    resolved_req@[k].deep_view() == resolved(split(st.1, '.'), st.0, config.entries@, indexes@)
                },
        {
            let mut copy: Vec<String> = Vec::new();
            let m = req[i].len();
            for j in 0..m
                invariant
                    m == req@[i as int]@.len(),
                    i < n,
                    req@.len() == n,
                    copy@.len() == j,
                    forall|a: int| 0 <= a < j ==> #[trigger] copy@[a]@ == req@[i as int]@[a]@,
            {
                copy.push(copy_str(req[i][j].as_str()));
            }
            assert(copy.deep_view() =~= req@[i as int].deep_view());
            resolved_req.push(Self::resolve_all(copy, urls[i].as_str(), config, indexes));
        }
        let mut data: Vec<Vec<String>> = Vec::new();
        for i in 0..n
            invariant
                n == resolved_req@.len(),
                n == dates@.len(),
                data@.len() == cols_upto(resolved_req@, dates@, check_date, i as nat),
                forall|c: int| 0 <= c < data@.len() ==> #[trigger] data@[c]@.len() == 0,
        {
            let k = resolved_req[i].len();
            let ghost base = data@.len();
            for j in 0..k
                invariant
                    data@.len() == base + j,
                    forall|c: int| 0 <= c < data@.len() ==> #[trigger] data@[c]@.len() == 0,
            {
                data.push(Vec::new());
            }
            if check_date && dates[i].as_str().is_empty() {
                data.push(Vec::new());
            }
        }
        let s = Selecter { urls, nums, dates, req: resolved_req, data, check_date };
        s
    }
    /// The data is laid out for the sources.
    pub open spec fn wf(&self) -> bool {
        &&& self.urls@.len() == self.req@.len()
        &&& self.nums@.len() == self.req@.len()
        &&& self.dates@.len() == self.req@.len()
        &&& self.data@.len() == cols_before(*self, self.req@.len() as nat)
    }

    /// Whether source `i` has a date column.
    pub fn with_date(&self, i: usize) -> (r: bool)
        requires
            i < self.dates@.len(),
        ensures
            r == (self.check_date && self.dates@[i as int]@.len() == 0),
    {
        self.check_date && self.dates[i].as_str().is_empty()
    }

    /// The number of columns of source `i`.
    pub fn columns_of(&self, i: usize) -> (r: usize)
        requires
            self.wf(),
            i < self.req@.len(),
        ensures
            r as nat == cols_of(self.req@[i as int]@.len(), self.dates@[i as int]@, self.check_date),
    {
        proof {
            lemma_cols_mono(*self, (i + 1) as nat, self.req@.len() as nat);
        }
        let _dl = self.data.len();
        let k = self.req[i].len();
        if self.with_date(i) {
            k + 1
        } else {
            k
        }
    }

    /// Where the columns of source `i` start.
    pub fn column_offset(&self, i: usize) -> (r: usize)
        requires
            self.wf(),
            i <= self.req@.len(),
        ensures
            r as nat == cols_before(*self, i as nat),
    {
        let mut off: usize = 0;
        let dl = self.data.len();
        for j in 0..i
            invariant
                dl == self.data@.len(),
                self.wf(),
                i <= self.req@.len(),
                off as nat == cols_before(*self, j as nat),
        {
            proof {
                lemma_cols_mono(*self, (j + 1) as nat, self.req@.len() as nat);
            }
            off = off + self.columns_of(j);
        }
        off
    }

    /// The files source `i` reads, with the date of each: one per number
    /// and date of its streams (numbers outermost), under the folder of its
    /// list, named after its URL.
    pub fn source_files(&self, i: usize, config: &Config, lists: &CodeLists, today: i32) -> (r: Vec<(String, String)>)
        requires
            self.wf(),
            i < self.req@.len(),
            valid_day(today as int),
        ensures
            ({
                let url = self.urls@[i as int]@;
                let nums = spec_stream_num(config.entries@, url, self.nums@[i as int]@, *lists);
                let dates = spec_stream_date(config.entries@, url, self.dates@[i as int]@, today as int);
                let folder = match find_url(config.entries@, url) {
                    Some(k) => config.entries@[k].folder@,
                    None => Seq::<char>::empty(),
                };
                let dir = folder_dir(folder);
                let clean = split_pat(url, "@Post:"@)[0];
                &&& r@.len() == nums.len() * dates.len()
                &&& forall|a: int, b: int| 0 <= a < nums.len() && 0 <= b < dates.len() ==> {
                    let f = #[trigger] r@[a * dates.len() + b];
                    &&& f.0@ == job_path(dir, url, clean, nums[a], dates[b])
                    &&& f.1@ == dates[b]
                }
            }),
    {
        proof {
            reveal_strlit("@Post:");
            reveal_strlit("");
        }
        let url = self.urls[i].as_str();
        let nums = config.stream_num(url, self.nums[i].as_str(), lists);
        let dates = config.stream_date(url, self.dates[i].as_str(), today);
        let folder = match config.find_url(url) {
            Some(k) => {
                proof {
                    lemma_find_url(config.entries@, url@);
                }
                copy_str(config.entries[k].folder.as_str())
            },
            None => String::new(),
        };
        assert(folder@ == (match find_url(config.entries@, url@) {
            Some(k) => config.entries@[k].folder@,
            None => Seq::<char>::empty(),
        }));
        let dir = Manager::folder_dir(folder.as_str());
        let parts = split_pat_str(url, "@Post:");
        let clean = parts[0].as_str();
        let base = LibUtils::url_to_name(clean);
        let ghost ns = nums.deep_view();
        let ghost ds = dates.deep_view();
        let mut out: Vec<(String, String)> = Vec::new();
        let n = nums.len();
        let m = dates.len();
        assert(0 * m == 0);
        for a in 0..n
            invariant
                base@ == crate::lib_utils::spec_url_to_name(clean@),
                n == nums@.len(),
                m == dates@.len(),
                ns == nums.deep_view(),
                ds == dates.deep_view(),
                out@.len() == a * m,
                forall|x: int, y: int| 0 <= x < a && 0 <= y < m ==> {
                    let f = #[trigger] out@[x * m + y];
                    &&& f.0@ == job_path(dir@, url@, clean@, ns[x], ds[y])
                    &&& f.1@ == ds[y]
                },
        {
            for b in 0..m
                invariant
                    n == nums@.len(),
                    m == dates@.len(),
                    a < n,
                    base@ == crate::lib_utils::spec_url_to_name(clean@),
                    ns == nums.deep_view(),
                    ds == dates.deep_view(),
                    out@.len() == a * m + b,
                    forall|x: int, y: int| 0 <= x < a && 0 <= y < m ==> {
                        let f = #[trigger] out@[x * m + y];
                        &&& f.0@ == job_path(dir@, url@, clean@, ns[x], ds[y])
                        &&& f.1@ == ds[y]
                    },
                    forall|y: int| 0 <= y < b ==> {
                        let f = #[trigger] out@[a * m + y];
                        &&& f.0@ == job_path(dir@, url@, clean@, ns[a as int], ds[y])
                        &&& f.1@ == ds[y]
                    },
            {
                proof {
                    reveal_strlit("/");
                    reveal_strlit(".txt");
                    reveal_strlit("@num");
                    reveal_strlit("@date");
                }
                let mut path = copy_str(dir.as_str());
                push_str(&mut path, "/");
                push_str(&mut path, base.as_str());
                if str_contains(url, "@num") {
                    push_char(&mut path, '_');
                    push_str(&mut path, nums[a].as_str());
                }
                if str_contains(url, "@date") {
                    push_char(&mut path, '_');
                    push_str(&mut path, dates[b].as_str());
                }
                push_str(&mut path, ".txt");
                assert(ns[a as int] == nums@[a as int]@ && ds[b as int] == dates@[b as int]@);
                assert(path@ =~= job_path(dir@, url@, clean@, ns[a as int], ds[b as int]));
                let ghost before = out@;
                out.push((path, copy_str(dates[b].as_str())));
                proof {
                    assert(out@.len() == a * m + b + 1);
                    assert forall|x: int, y: int| 0 <= x < a && 0 <= y < m implies {
                        let f = #[trigger] out@[x * m + y];
                        &&& f.0@ == job_path(dir@, url@, clean@, ns[x], ds[y])
                        &&& f.1@ == ds[y]
                    } by {
                        lemma_grid_index(x, y, a as int, m as int);
                        assert(out@[x * m + y] == before[x * m + y]);
                    }
                    assert forall|y: int| 0 <= y < b + 1 implies {
                        let f = #[trigger] out@[a * m + y];
                        &&& f.0@ == job_path(dir@, url@, clean@, ns[a as int], ds[y])
                        &&& f.1@ == ds[y]
                    } by {
                        if y < b {
                            assert(out@[a * m + y] == before[a * m + y]);
                        }
                    }
                }
            }
            assert((a + 1) * m == a * m + m) by (nonlinear_arith);
            proof {
                assert forall|x: int, y: int| 0 <= x < a + 1 && 0 <= y < m implies {
                    let f = #[trigger] out@[x * m + y];
                    &&& f.0@ == job_path(dir@, url@, clean@, ns[x], ds[y])
                    &&& f.1@ == ds[y]
                } by {
                    if x == a {
                        assert(out@[a * m + y] == out@[x * m + y]);
                    }
                }
            }
        }
        out
    }

    /// Column `k` of source `i` from the parsed files (with their dates).
    fn gather(
        parsed: &Vec<Option<Vec<Vec<String>>>>,
        dates: &Vec<String>,
        k: usize,
        with_date: bool,
    ) -> (r: Vec<String>)
        requires
            parsed@.len() == dates@.len(),
        ensures
            r.deep_view() == source_col(
                parsed@.map_values(|p: Option<Vec<Vec<String>>>| parsed_view(p)),
                dates.deep_view(),
                k as int,
                with_date,
            ),
    {
        let ghost pv = parsed@.map_values(|p: Option<Vec<Vec<String>>>| parsed_view(p));
        let ghost dv = dates.deep_view();
        let mut out: Vec<String> = Vec::new();
        let n = parsed.len();
        for f in 0..n
            invariant
                n == parsed@.len(),
                n == dates@.len(),
                pv == parsed@.map_values(|p: Option<Vec<Vec<String>>>| parsed_view(p)),
                dv == dates.deep_view(),
                out.deep_view() =~= source_col(pv.take(f as int), dv.take(f as int), k as int, with_date),
        {
            proof {
                assert(pv.take(f + 1).drop_last() =~= pv.take(f as int));
                assert(dv.take(f + 1).drop_last() =~= dv.take(f as int));
                assert(pv.take(f + 1).last() == parsed_view(parsed@[f as int]));
                assert(dv.take(f + 1).last() == dates@[f as int]@);
            }
            let mut col = Self::file_column(&parsed[f], k, dates[f].as_str(), with_date);
            out.append(&mut col);
        }
        assert(pv.take(n as int) =~= pv);
        assert(dv.take(n as int) =~= dv);
        out
    }

    /// Column `k` of what one file contributes.
    pub fn file_column(parsed: &Option<Vec<Vec<String>>>, k: usize, date: &str, with_date: bool) -> (r: Vec<String>)
        ensures
            r.deep_view() == file_col(parsed_view(*parsed), k as int, date@, with_date),
    {
        proof {
            reveal_strlit("null");
        }
        let rows: usize = match parsed {
            Some(p) => if p.len() > 0 { p[0].len() } else { 0 },
            None => 0,
        };
        let ghost want = file_col(parsed_view(*parsed), k as int, date@, with_date);
        let mut out: Vec<String> = Vec::new();
        for r in 0..rows
            invariant
                rows == file_rows(parsed_view(*parsed)),
                want == file_col(parsed_view(*parsed), k as int, date@, with_date),
                want.len() == rows,
                out@.len() == r,
                forall|j: int| 0 <= j < r ==> #[trigger] out@[j]@ == want[j],
        {
            if with_date && k == 0 {
                out.push(copy_str(date));
            } else {
                let c = if with_date { k - 1 } else { k };
                match parsed {
                    Some(p) => {
                        if c < p.len() && r < p[c].len() {
                            assert(p.deep_view()[c as int][r as int] == p@[c as int]@[r as int]@);
                            out.push(copy_str(p[c][r].as_str()));
                        } else {
                            out.push(copy_str("null"));
                        }
                    },
                    None => {
                        out.push(copy_str("null"));
                    },
                }
            }
        }
        assert(out.deep_view() =~= want);
        out
    }

    /// Adds the parsed files of source `i` (with their dates) to its
    /// columns: each column grows by that column of every file, file after
    /// file; other sources' columns stay as they are.
    pub fn fill(&mut self, i: usize, parsed: &Vec<Option<Vec<Vec<String>>>>, dates: &Vec<String>)
        requires
            old(self).wf(),
            i < old(self).req@.len(),
            parsed@.len() == dates@.len(),
        ensures
            final(self).wf(),
            final(self).urls == old(self).urls,
            final(self).nums == old(self).nums,
            final(self).dates == old(self).dates,
            final(self).req == old(self).req,
            final(self).check_date == old(self).check_date,
            final(self).data@.len() == old(self).data@.len(),
            forall|c: int| 0 <= c < old(self).data@.len() ==> {
                let off = cols_before(*old(self), i as nat) as int;
                let k = cols_of(old(self).req@[i as int]@.len(), old(self).dates@[i as int]@, old(self).check_date) as int;
                #[trigger] final(self).data@[c].deep_view() == if off <= c < off + k {
                    old(self).data@[c].deep_view() + source_col(
                        parsed@.map_values(|p: Option<Vec<Vec<String>>>| parsed_view(p)),
                        dates.deep_view(),
                        c - off,
                        old(self).check_date && old(self).dates@[i as int]@.len() == 0,
                    )
                } else {
                    old(self).data@[c].deep_view()
                }
            },
    {
        let off = self.column_offset(i);
        let k = self.columns_of(i);
        let wd = self.with_date(i);
        proof {
            lemma_cols_mono(*self, (i + 1) as nat, self.req@.len() as nat);
        }
        let ghost s0 = *self;
        let dl = self.data.len();
        for c in 0..k
            invariant
                dl == s0.data@.len(),
                s0.wf(),
                i < s0.req@.len(),
                off as nat == cols_before(s0, i as nat),
                k as nat == cols_of(s0.req@[i as int]@.len(), s0.dates@[i as int]@, s0.check_date),
                off + k <= s0.data@.len(),
                wd == (s0.check_date && s0.dates@[i as int]@.len() == 0),
                parsed@.len() == dates@.len(),
                self.urls == s0.urls,
                self.nums == s0.nums,
                self.dates == s0.dates,
                self.req == s0.req,
                self.check_date == s0.check_date,
                self.data@.len() == s0.data@.len(),
                forall|x: int| 0 <= x < s0.data@.len() ==> #[trigger] self.data@[x].deep_view() == if off <= x < off + c {
                    s0.data@[x].deep_view() + source_col(
                        parsed@.map_values(|p: Option<Vec<Vec<String>>>| parsed_view(p)),
                        dates.deep_view(),
                        x - off,
                        wd,
                    )
                } else {
                    s0.data@[x].deep_view()
                },
        {
            let mut add = Self::gather(parsed, dates, c, wd);
            let mut col: Vec<String> = Vec::new();
            let at = off + c;
            let m = self.data[at].len();
            for j in 0..m
                invariant
                    m == self.data@[at as int]@.len(),
                    at < self.data@.len(),
                    col@.len() == j,
                    forall|a: int| 0 <= a < j ==> #[trigger] col@[a]@ == self.data@[at as int]@[a]@,
            {
                col.push(copy_str(self.data[at][j].as_str()));
            }
            assert(col.deep_view() =~= self.data@[at as int].deep_view());
            let ghost added = add.deep_view();
            col.append(&mut add);
            let ghost before = self.data@;
            self.data.set(at, col);
            proof {
                assert forall|x: int| 0 <= x < s0.data@.len() implies #[trigger] self.data@[x].deep_view() == if off <= x < off + c + 1 {
                    s0.data@[x].deep_view() + source_col(
                        parsed@.map_values(|p: Option<Vec<Vec<String>>>| parsed_view(p)),
                        dates.deep_view(),
                        x - off,
                        wd,
                    )
                } else {
                    s0.data@[x].deep_view()
                } by {
                    if x != off + c {
                        assert(self.data@[x] == before[x]);
                    }
                }
            }
        }
    }

    /// Fills the selection from the parsed files of every source (with
    /// their dates): each column grows by its source's column of each of
    /// that source's files, file after file (a source whose files are not
    /// given with a date each adds nothing). What the columns held stays:
    /// a second call appends again.
    pub fn select(&mut self, parsed: &Vec<Vec<Option<Vec<Vec<String>>>>>, dates: &Vec<Vec<String>>)
        requires
            old(self).wf(),
        ensures
            final(self).wf(),
            final(self).urls == old(self).urls,
            final(self).nums == old(self).nums,
            final(self).dates == old(self).dates,
            final(self).req == old(self).req,
            final(self).check_date == old(self).check_date,
            final(self).data@.len() == old(self).data@.len(),
            forall|c: int|
                0 <= c < old(self).data@.len() ==> #[trigger] final(self).data@[c].deep_view() == old(
                    self,
                ).data@[c].deep_view() + added(*old(self), parsed@, dates@, c, old(self).req@.len() as nat),
    {
        let ghost s0 = *self;
        let n = self.req.len();
        for i in 0..n
            invariant
                n == s0.req@.len(),
                self.wf(),
                self.urls == s0.urls,
                self.nums == s0.nums,
                self.dates == s0.dates,
                self.req == s0.req,
                self.check_date == s0.check_date,
                self.data@.len() == s0.data@.len(),
                forall|c: int|
                    0 <= c < s0.data@.len() ==> #[trigger] self.data@[c].deep_view() == s0.data@[c].deep_view()
                        + added(s0, parsed@, dates@, c, i as nat),
        {
            let ghost before = *self;
            if i < parsed.len() && i < dates.len() && parsed[i].len() == dates[i].len() {
                self.fill(i, &parsed[i], &dates[i]);
            }
            proof {
                assert(cols_before(before, i as nat) == cols_before(s0, i as nat));
                assert(cols_before(before, (i + 1) as nat) == cols_before(s0, (i + 1) as nat));
                assert forall|c: int| 0 <= c < s0.data@.len() implies #[trigger] self.data@[c].deep_view()
                    == s0.data@[c].deep_view() + added(s0, parsed@, dates@, c, (i + 1) as nat) by {
                    let off = cols_before(s0, i as nat) as int;
                    assert(before.data@[c].deep_view() == s0.data@[c].deep_view() + added(s0, parsed@, dates@, c, i as nat));
                    if off <= c < cols_before(s0, (i + 1) as nat) {
                        lemma_added_past(s0, parsed@, dates@, c, i as nat);
                        assert(s0.data@[c].deep_view() + Seq::<Seq<char>>::empty() =~= s0.data@[c].deep_view());
                    }
                }
            }
        }
    }

    /// Where an export goes: the given path, or `downloads/export.csv`
    /// when none is given.
    pub fn export_path(path_in: &str) -> (r: String)
        ensures
            r@ == (if path_in@.len() == 0 {
                "downloads/export.csv"@
            } else {
                path_in@
            }),
    {
        if path_in.is_empty() {
            copy_str("downloads/export.csv")
        } else {
            copy_str(path_in)
        }
    }

    /// The export of the data: the header (per source `pathIn` for its date
    /// column, then its fields) and one row per position up to the longest
    /// column, empty where a column is shorter. Nothing to export without
    /// data.
    pub fn export_table(&self) -> (r: Option<(Vec<String>, Vec<Vec<String>>)>)
        requires
            self.dates@.len() == self.req@.len(),
        ensures
            self.data@.len() == 0 ==> r is None,
            self.data@.len() > 0 ==> (r matches Some((h, rows)) && {
                &&& h.deep_view() == export_header(*self, self.req@.len() as nat)
                &&& rows@.len() == max_len(self.data.deep_view())
                &&& forall|j: int| 0 <= j < rows@.len() ==> #[trigger] rows@[j].deep_view() == export_row(self.data.deep_view(), j)
            }),
    {
        if self.data.len() == 0 {
            return None;
        }
        proof {
            reveal_strlit("pathIn");
        }
        let mut h: Vec<String> = Vec::new();
        let n = self.req.len();
        for i in 0..n
            invariant
                n == self.req@.len(),
                n == self.dates@.len(),
                h.deep_view() =~= export_header(*self, i as nat),
        {
            if self.with_date(i) {
                h.push(copy_str("pathIn"));
            }
            let m = self.req[i].len();
            let ghost before = h.deep_view();
            for j in 0..m
                invariant
                    m == self.req@[i as int]@.len(),
                    i < n,
                    n == self.req@.len(),
                    h.deep_view() =~= before + self.req@[i as int].deep_view().take(j as int),
            {
                let ghost b0 = h.deep_view();
                h.push(copy_str(self.req[i][j].as_str()));
                assert(h.deep_view() =~= b0.push(self.req@[i as int]@[j as int]@));
                assert(self.req@[i as int].deep_view().take(j + 1) =~= self.req@[i as int].deep_view().take(
                    j as int,
                ).push(self.req@[i as int]@[j as int]@));
            }
            assert(self.req@[i as int].deep_view().take(m as int) =~= self.req@[i as int].deep_view());
        }
        let ghost dv = self.data.deep_view();
        let mut maxr: usize = 0;
        let c = self.data.len();
        for x in 0..c
            invariant
                c == self.data@.len(),
                dv == self.data.deep_view(),
                maxr as nat == max_len(dv.take(x as int)),
        {
            assert(dv.take(x + 1).drop_last() =~= dv.take(x as int));
            assert(dv.take(x + 1).last().len() == self.data@[x as int]@.len());
            if self.data[x].len() > maxr {
                maxr = self.data[x].len();
            }
        }
        assert(dv.take(c as int) =~= dv);
        let mut rows: Vec<Vec<String>> = Vec::new();
        for j in 0..maxr
            invariant
                c == self.data@.len(),
                dv == self.data.deep_view(),
                rows@.len() == j,
                forall|a: int| 0 <= a < j ==> #[trigger] rows@[a].deep_view() == export_row(dv, a),
        {
            let mut row: Vec<String> = Vec::new();
            for x in 0..c
                invariant
                    c == self.data@.len(),
                    dv == self.data.deep_view(),
                    row@.len() == x,
                    forall|b: int| 0 <= b < x ==> #[trigger] row@[b]@ == export_row(dv, j as int)[b],
            {
                if j < self.data[x].len() {
                    row.push(copy_str(self.data[x][j].as_str()));
                } else {
                    row.push(String::new());
                }
            }
            assert(row.deep_view() =~= export_row(dv, j as int));
            rows.push(row);
        }
        Some((h, rows))
    }
}

/// The parsed files of a source as plain values.
pub open spec fn parsed_views(files: Seq<Option<Vec<Vec<String>>>>) -> Seq<Option<Seq<Seq<Seq<char>>>>> {
    files.map_values(|p: Option<Vec<Vec<String>>>| parsed_view(p))
}

/// The files of source `j` are given with a date each.
pub open spec fn source_ready(parsed: Seq<Vec<Option<Vec<Vec<String>>>>>, dates: Seq<Vec<String>>, j: int) -> bool {
    &&& j < parsed.len()
    &&& j < dates.len()
    &&& parsed[j]@.len() == dates[j]@.len()
}

/// What column `c` gains when the first `n` sources are filled: the
/// column of the source it belongs to, from that source's files (nothing
/// where its files are not given with a date each).
pub open spec fn added(
    s: Selecter,
    parsed: Seq<Vec<Option<Vec<Vec<String>>>>>,
    dates: Seq<Vec<String>>,
    c: int,
    n: nat,
) -> Seq<Seq<char>>
    decreases n,
{
    if n == 0 {
        Seq::empty()
    } else {
        let j = n - 1;
        let off = cols_before(s, j as nat) as int;
        if off <= c < cols_before(s, n) {
            if source_ready(parsed, dates, j) {
                source_col(
                    parsed_views(parsed[j]@),
                    dates[j].deep_view(),
                    c - off,
                    s.check_date && s.dates@[j]@.len() == 0,
                )
            } else {
                Seq::empty()
            }
        } else {
            added(s, parsed, dates, c, (n - 1) as nat)
        }
    }
}

/// Columns past the first `n` sources gain nothing from them.
pub proof fn lemma_added_past(
    s: Selecter,
    parsed: Seq<Vec<Option<Vec<Vec<String>>>>>,
    dates: Seq<Vec<String>>,
    c: int,
    n: nat,
)
    requires
        c >= cols_before(s, n),
    ensures
        added(s, parsed, dates, c, n) == Seq::<Seq<char>>::empty(),
    decreases n,
{
    if n > 0 {
        lemma_cols_mono(s, (n - 1) as nat, n);
        lemma_added_past(s, parsed, dates, c, (n - 1) as nat);
    }
}

/// The export header names every data column: one item per column of
/// each source.
pub proof fn law_header_fits_columns(s: Selecter, n: nat)
    requires
        n <= s.req@.len(),
        n <= s.dates@.len(),
    ensures
        export_header(s, n).len() == cols_before(s, n),
    decreases n,
{
    if n > 0 {
        law_header_fits_columns(s, (n - 1) as nat);
        assert(s.req@[n - 1].deep_view().len() == s.req@[n - 1]@.len());
    }
}

/// Every column of a source grows by the same number of rows: those of
/// each of its files.
pub proof fn law_source_columns_aligned(
    parsed: Seq<Option<Seq<Seq<Seq<char>>>>>,
    dates: Seq<Seq<char>>,
    k: int,
    j: int,
    with_date: bool,
)
    ensures
        source_col(parsed, dates, k, with_date).len() == source_col(parsed, dates, j, with_date).len(),
    decreases parsed.len(),
{
    if parsed.len() > 0 {
        law_source_columns_aligned(parsed.drop_last(), dates.drop_last(), k, j, with_date);
    }
}

/// Column counts grow with the number of sources.
pub proof fn lemma_cols_mono(s: Selecter, a: nat, b: nat)
    requires
        a <= b,
    ensures
        cols_before(s, a) <= cols_before(s, b),
    decreases b - a,
{
    if a < b {
        lemma_cols_mono(s, a, (b - 1) as nat);
    }
}

/// A cell of the first `a` rows of a grid with `m` columns lies before row `a`.
pub proof fn lemma_grid_index(x: int, y: int, a: int, m: int)
    requires
        0 <= x < a,
        0 <= y < m,
    ensures
        0 <= x * m + y < a * m,
{
    assert(x * m + y < (x + 1) * m) by (nonlinear_arith)
        requires
            y < m,
    ;
    assert((x + 1) * m <= a * m) by (nonlinear_arith)
        requires
            x + 1 <= a,
            m > 0,
    ;
    assert(0 <= x * m) by (nonlinear_arith)
        requires
            x >= 0,
            m > 0,
    ;
}

} // verus!
